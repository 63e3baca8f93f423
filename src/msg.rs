use vstd::prelude::*;

use crate::models::{Alert, AlertField, OrderBy, Subscription, SubscriptionFieldValue};

verus! {

/// Instantiation carries nothing: the sender becomes the owner.
#[derive(Clone, Debug, PartialEq, Eq)]
pub struct InitMsg {}

/// Commands that change the registry.
#[derive(Clone, Debug, PartialEq, Eq)]
pub enum HandleMsg {
    CreateAlert {
        blockchain: String,
        protocol: String,
        method: String,
        name: String,
        description: String,
        fields: Vec<AlertField>,
    },
    SubscribeAlert { alert_key: String, field_values: Vec<SubscriptionFieldValue> },
    UnsubscribeAlert { alert_key: String },
}

/// Reads of the registry; addresses are canonical.
#[derive(Clone, Debug, PartialEq, Eq)]
pub enum QueryMsg {
    GetAlerts { start_after: Option<Vec<u8>>, limit: Option<u32>, order_by: Option<OrderBy> },
    GetSubscriptionsForAddress {
        subscriber_addr: Vec<u8>,
        start_after: Option<Vec<u8>>,
        limit: Option<u32>,
        order_by: Option<OrderBy>,
    },
}

#[derive(Clone, Debug, PartialEq, Eq)]
pub struct GetAlertsResponse {
    pub alerts: Vec<Alert>,
}

#[derive(Clone, Debug, PartialEq, Eq)]
pub struct GetSubscriptionsForAddressResponse {
    pub subscriptions: Vec<Subscription>,
}

/// The answer to a `QueryMsg`.
#[derive(Clone, Debug, PartialEq, Eq)]
pub enum QueryResponse {
    Alerts(GetAlertsResponse),
    Subscriptions(GetSubscriptionsForAddressResponse),
}

} // verus!
