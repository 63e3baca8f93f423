use vstd::prelude::*;

use crate::bytes::bytes_eq;
use crate::error::ContractError;
use crate::keys::{alert_key, alert_key_spec, alert_storage_key, subscription_storage_key};
use crate::models::{
    fields_view, values_view,
    Alert, AlertField, AlertFieldView, AlertView, OrderBy, Subscription, SubscriptionFieldValue,
    SubscriptionFieldValueView, SubscriptionView,
};
use crate::msg::{
    GetAlertsResponse, GetSubscriptionsForAddressResponse, HandleMsg, QueryMsg, QueryResponse,
};
use crate::state::{
    alerts_page, has_subscription_for_address, read_alert, read_alerts, read_config,
    read_subscriptions_for_address, remove_subscription_for_address, store_alert, store_config,
    store_subscription_for_address, subscriptions_page, Config, Storage,
};
use crate::store::opt_view;

verus! {

/// `sender` is the recorded owner.
pub open spec fn is_owner(storage: Storage, sender: Seq<u8>) -> bool {
    storage.config matches Some(c) && c.owner@ == sender
}

/// Some entry of `field_values` carries the key `field_key`.
pub open spec fn provides(field_values: Seq<SubscriptionFieldValueView>, field_key: Seq<char>) -> bool {
    exists|j: int| 0 <= j < field_values.len() && #[trigger] field_values[j].field_key == field_key
}

/// The first field, from position `i` on, that `field_values` has no value for.
pub open spec fn first_missing(
    fields: Seq<AlertFieldView>,
    field_values: Seq<SubscriptionFieldValueView>,
    i: int,
) -> Option<int>
    decreases fields.len() - i,
{
    if i < 0 || i >= fields.len() {
        None
    } else if !provides(field_values, fields[i].field_key) {
        Some(i)
    } else {
        first_missing(fields, field_values, i + 1)
    }
}

pub open spec fn missing_field_message(field_key: Seq<char>) -> Seq<char> {
    "missing field "@ + field_key
}

/// The alert that CreateAlert builds.
pub open spec fn new_alert(
    blockchain: Seq<char>,
    protocol: Seq<char>,
    method: Seq<char>,
    name: Seq<char>,
    description: Seq<char>,
    fields: Seq<AlertFieldView>,
) -> AlertView {
    AlertView {
        alert_key: alert_key_spec(blockchain, protocol, method),
        blockchain,
        protocol,
        method,
        name,
        description,
        fields,
    }
}

/// What CreateAlert does: without an owner record it fails with `NotInitialized`, for
/// another sender with `Unauthorized`, both leaving the store as it was; for the owner it
/// writes the new alert under its key and changes nothing else.
pub open spec fn create_alert_outcome(
    pre: Storage,
    post: Storage,
    sender: Seq<u8>,
    alert: AlertView,
    r: Result<(), ContractError>,
) -> bool {
    match pre.config {
        None => r == Err::<(), ContractError>(ContractError::NotInitialized) && post == pre,
        Some(c) => if c.owner@ != sender {
            r == Err::<(), ContractError>(ContractError::Unauthorized) && post == pre
        } else {
            &&& r == Ok::<(), ContractError>(())
            &&& post.wf()
            &&& post.config == pre.config
            &&& post.subscriptions == pre.subscriptions
            &&& forall|k: Seq<u8>|
                #[trigger] post.alerts.get_spec(k) == if k == alert_storage_key(alert.alert_key) {
                    Some(alert)
                } else {
                    pre.alerts.get_spec(k)
                }
        },
    }
}

/// What SubscribeAlert does: `NotFound` for an unknown alert, `ValidationError` naming
/// the first field of the alert without a value, both leaving the store as it was;
/// otherwise it writes the subscription under the sender and the alert key.
pub open spec fn subscribe_outcome(
    pre: Storage,
    post: Storage,
    sender: Seq<u8>,
    alert_key: Seq<char>,
    field_values: Seq<SubscriptionFieldValueView>,
    r: Result<(), ContractError>,
) -> bool {
    match pre.alerts.get_spec(alert_storage_key(alert_key)) {
        None => r matches Err(ContractError::NotFound { kind }) && kind@ == "alert"@ && post == pre,
        Some(a) => match first_missing(a.fields, field_values, 0) {
            Some(i) => r matches Err(ContractError::ValidationError { msg }) && msg@
                == missing_field_message(a.fields[i].field_key) && post == pre,
            None => {
                &&& r == Ok::<(), ContractError>(())
                &&& post.wf()
                &&& post.config == pre.config
                &&& post.alerts == pre.alerts
                &&& forall|k: Seq<u8>|
                    #[trigger] post.subscriptions.get_spec(k) == if k == subscription_storage_key(
                        sender,
                        alert_key,
                    ) {
                        Some(SubscriptionView { alert_key, field_values })
                    } else {
                        pre.subscriptions.get_spec(k)
                    }
            },
        },
    }
}

/// What UnsubscribeAlert does: `NotFound` for an unknown alert or a missing subscription,
/// leaving the store as it was; otherwise it deletes the subscription.
pub open spec fn unsubscribe_outcome(
    pre: Storage,
    post: Storage,
    sender: Seq<u8>,
    alert_key: Seq<char>,
    r: Result<(), ContractError>,
) -> bool {
    if pre.alerts.get_spec(alert_storage_key(alert_key)) is None {
        r matches Err(ContractError::NotFound { kind }) && kind@ == "alert"@ && post == pre
    } else if pre.subscriptions.get_spec(subscription_storage_key(sender, alert_key)) is None {
        r matches Err(ContractError::NotFound { kind }) && kind@ == "subscription"@ && post == pre
    } else {
        &&& r == Ok::<(), ContractError>(())
        &&& post.wf()
        &&& post.config == pre.config
        &&& post.alerts == pre.alerts
        &&& forall|k: Seq<u8>|
            #[trigger] post.subscriptions.get_spec(k) == if k == subscription_storage_key(
                sender,
                alert_key,
            ) {
                None
            } else {
                pre.subscriptions.get_spec(k)
            }
    }
}

/// Records `sender` as the owner.
pub fn init(storage: &mut Storage, sender: &[u8])
    requires
        old(storage).wf(),
    ensures
        final(storage).wf(),
        final(storage).config matches Some(c) && c.owner@ == sender@,
        final(storage).alerts == old(storage).alerts,
        final(storage).subscriptions == old(storage).subscriptions,
{
    let owner = crate::keys::copy_bytes(sender);
    store_config(storage, Config { owner });
}

/// CreateAlert: the owner defines an alert keyed by `blockchain.protocol.method`.
pub fn try_create_alert(
    storage: &mut Storage,
    sender: &[u8],
    blockchain: String,
    protocol: String,
    method: String,
    name: String,
    description: String,
    fields: Vec<AlertField>,
) -> (r: Result<(), ContractError>)
    requires
        old(storage).wf(),
    ensures
        create_alert_outcome(
            *old(storage),
            *final(storage),
            sender@,
            new_alert(blockchain@, protocol@, method@, name@, description@, fields_view(fields)),
            r,
        ),
{
    let config = match read_config(storage) {
        Ok(c) => c,
        Err(e) => return Err(e),
    };
    if !bytes_eq(sender, config.owner.as_slice()) {
        return Err(ContractError::Unauthorized);
    }
    let key = alert_key(blockchain.as_str(), protocol.as_str(), method.as_str());
    let alert = Alert { alert_key: key, blockchain, protocol, method, name, description, fields };
    store_alert(storage, alert);
    Ok(())
}

/// Whether some entry of `field_values` carries `field_key`.
pub fn provides_value(field_values: &Vec<SubscriptionFieldValue>, field_key: &String) -> (r: bool)
    ensures
        r == provides(values_view(*field_values), field_key@),
{
    let mut j: usize = 0;
    while j < field_values.len()
        invariant
            j <= field_values@.len(),
            forall|m: int| 0 <= m < j ==> field_values@[m].field_key@ != field_key@,
        decreases field_values@.len() - j,
    {
        if field_values[j].field_key == *field_key {
            assert(values_view(*field_values)[j as int].field_key == field_key@);
            return true;
        }
        j = j + 1;
    }
    assert forall|m: int| 0 <= m < field_values@.len() implies #[trigger] values_view(
        *field_values,
    )[m].field_key != field_key@ by {
        assert(values_view(*field_values)[m] == field_values@[m]@);
    }
    false
}

/// Position of the first field of `fields` that `field_values` has no value for.
pub fn find_missing_field(fields: &Vec<AlertField>, field_values: &Vec<SubscriptionFieldValue>) -> (r:
    Option<usize>)
    ensures
        first_missing(fields_view(*fields), values_view(*field_values), 0) == match r {
            Some(i) => Some(i as int),
            None => None::<int>,
        },
        r matches Some(i) ==> i < fields@.len(),
{
    let ghost fv = fields_view(*fields);
    let ghost vv = values_view(*field_values);
    let mut i: usize = 0;
    while i < fields.len()
        invariant
            i <= fields@.len(),
            fv == fields_view(*fields),
            vv == values_view(*field_values),
            first_missing(fv, vv, 0) == first_missing(fv, vv, i as int),
        decreases fields@.len() - i,
    {
        assert(fv[i as int] == fields@[i as int]@);
        if !provides_value(field_values, &fields[i].field_key) {
            return Some(i);
        }
        i = i + 1;
    }
    None
}

/// SubscribeAlert: `sender` subscribes to an alert, with a value for each of its fields.
pub fn try_subscribe_alert(
    storage: &mut Storage,
    sender: &[u8],
    alert_key: String,
    field_values: Vec<SubscriptionFieldValue>,
) -> (r: Result<(), ContractError>)
    requires
        old(storage).wf(),
        sender@.len() <= 0xFFFF,
    ensures
        subscribe_outcome(
            *old(storage),
            *final(storage),
            sender@,
            alert_key@,
            values_view(field_values),
            r,
        ),
{
    let alert = match read_alert(storage, alert_key.as_str()) {
        Ok(a) => a,
        Err(e) => return Err(e),
    };
    match find_missing_field(&alert.fields, &field_values) {
        Some(i) => {
            let mut msg = String::from_str("missing field ");
            msg.append(alert.fields[i].field_key.as_str());
            proof {
                assert(fields_view(alert.fields)[i as int] == alert.fields@[i as int]@);
            }
            Err(ContractError::ValidationError { msg })
        },
        None => {
            let subscription = Subscription { alert_key, field_values };
            store_subscription_for_address(storage, sender, subscription);
            Ok(())
        },
    }
}

/// UnsubscribeAlert: `sender` drops an existing subscription.
pub fn try_unsubscribe_alert(storage: &mut Storage, sender: &[u8], alert_key: String) -> (r: Result<
    (),
    ContractError,
>)
    requires
        old(storage).wf(),
        sender@.len() <= 0xFFFF,
    ensures
        unsubscribe_outcome(*old(storage), *final(storage), sender@, alert_key@, r),
{
    if let Err(e) = read_alert(storage, alert_key.as_str()) {
        return Err(e);
    }
    if !has_subscription_for_address(storage, sender, alert_key.as_str()) {
        let kind = String::from_str("subscription");
        return Err(ContractError::NotFound { kind });
    }
    remove_subscription_for_address(storage, sender, alert_key.as_str());
    Ok(())
}

/// Carries out one command from `sender`.
pub fn handle(storage: &mut Storage, sender: &[u8], msg: HandleMsg) -> (r: Result<(), ContractError>)
    requires
        old(storage).wf(),
        msg is CreateAlert || sender@.len() <= 0xFFFF,
    ensures
        match msg {
            HandleMsg::CreateAlert { blockchain, protocol, method, name, description, fields } =>
                create_alert_outcome(
                *old(storage),
                *final(storage),
                sender@,
                new_alert(blockchain@, protocol@, method@, name@, description@, fields_view(fields)),
                r,
            ),
            HandleMsg::SubscribeAlert { alert_key, field_values } => subscribe_outcome(
                *old(storage),
                *final(storage),
                sender@,
                alert_key@,
                values_view(field_values),
                r,
            ),
            HandleMsg::UnsubscribeAlert { alert_key } => unsubscribe_outcome(
                *old(storage),
                *final(storage),
                sender@,
                alert_key@,
                r,
            ),
        },
{
    match msg {
        HandleMsg::CreateAlert { blockchain, protocol, method, name, description, fields } =>
            try_create_alert(storage, sender, blockchain, protocol, method, name, description, fields),
        HandleMsg::SubscribeAlert { alert_key, field_values } => try_subscribe_alert(
            storage,
            sender,
            alert_key,
            field_values,
        ),
        HandleMsg::UnsubscribeAlert { alert_key } => try_unsubscribe_alert(storage, sender, alert_key),
    }
}

/// GetAlerts: one page of alerts.
pub fn handle_query_alerts(
    storage: &Storage,
    start_after: Option<Vec<u8>>,
    limit: Option<u32>,
    order_by: Option<OrderBy>,
) -> (r: GetAlertsResponse)
    requires
        storage.wf(),
    ensures
        r.alerts@.map_values(|a: Alert| a@) == alerts_page(
            storage.alerts.model(),
            opt_view(start_after),
            limit,
            order_by,
        ).map_values(|i: int| storage.alerts.model()[i].1),
{
    let alerts = read_alerts(storage, start_after, limit, order_by);
    GetAlertsResponse { alerts }
}

/// GetSubscriptionsForAddress: one page of a subscriber's subscriptions.
pub fn handle_query_subscriptions_for_address(
    storage: &Storage,
    subscriber_addr: Vec<u8>,
    start_after: Option<Vec<u8>>,
    limit: Option<u32>,
    order_by: Option<OrderBy>,
) -> (r: GetSubscriptionsForAddressResponse)
    requires
        storage.wf(),
        subscriber_addr@.len() <= 0xFFFF,
    ensures
        r.subscriptions@.map_values(|x: Subscription| x@) == subscriptions_page(
            storage.subscriptions.model(),
            subscriber_addr@,
            opt_view(start_after),
            limit,
            order_by,
        ).map_values(|i: int| storage.subscriptions.model()[i].1),
{
    let subscriptions = read_subscriptions_for_address(
        storage,
        subscriber_addr.as_slice(),
        start_after,
        limit,
        order_by,
    );
    GetSubscriptionsForAddressResponse { subscriptions }
}

/// Answers one query.
pub fn query(storage: &Storage, msg: QueryMsg) -> (r: QueryResponse)
    requires
        storage.wf(),
        msg matches QueryMsg::GetSubscriptionsForAddress { subscriber_addr, .. } ==> subscriber_addr@.len()
            <= 0xFFFF,
    ensures
        match msg {
            QueryMsg::GetAlerts { start_after, limit, order_by } => r matches QueryResponse::Alerts(
                resp,
            ) && resp.alerts@.map_values(|a: Alert| a@) == alerts_page(
                storage.alerts.model(),
                opt_view(start_after),
                limit,
                order_by,
            ).map_values(|i: int| storage.alerts.model()[i].1),
            QueryMsg::GetSubscriptionsForAddress { subscriber_addr, start_after, limit, order_by } =>
                r matches QueryResponse::Subscriptions(resp) && resp.subscriptions@.map_values(
                |x: Subscription| x@,
            ) == subscriptions_page(
                storage.subscriptions.model(),
                subscriber_addr@,
                opt_view(start_after),
                limit,
                order_by,
            ).map_values(|i: int| storage.subscriptions.model()[i].1),
        },
{
    match msg {
        QueryMsg::GetAlerts { start_after, limit, order_by } => QueryResponse::Alerts(
            handle_query_alerts(storage, start_after, limit, order_by),
        ),
        QueryMsg::GetSubscriptionsForAddress { subscriber_addr, start_after, limit, order_by } =>
            QueryResponse::Subscriptions(
            handle_query_subscriptions_for_address(
                storage,
                subscriber_addr,
                start_after,
                limit,
                order_by,
            ),
        ),
    }
}

} // verus!
