use vstd::prelude::*;

use crate::store::Record;

verus! {

/// One field that a subscriber must supply a value for.
#[derive(Clone, Debug, PartialEq, Eq)]
pub struct AlertField {
    pub field_key: String,
    pub name: String,
    pub description: String,
    pub validation_regex: String,
}

pub struct AlertFieldView {
    pub field_key: Seq<char>,
    pub name: Seq<char>,
    pub description: Seq<char>,
    pub validation_regex: Seq<char>,
}

impl View for AlertField {
    type V = AlertFieldView;

    open spec fn view(&self) -> AlertFieldView {
        AlertFieldView {
            field_key: self.field_key@,
            name: self.name@,
            description: self.description@,
            validation_regex: self.validation_regex@,
        }
    }
}

impl Record for AlertField {
    fn duplicate(&self) -> (r: Self) {
        AlertField {
            field_key: self.field_key.clone(),
            name: self.name.clone(),
            description: self.description.clone(),
            validation_regex: self.validation_regex.clone(),
        }
    }
}

/// An alert definition, stored under its `alert_key`.
#[derive(Clone, Debug, PartialEq, Eq)]
pub struct Alert {
    pub alert_key: String,
    pub blockchain: String,
    pub protocol: String,
    pub method: String,
    pub name: String,
    pub description: String,
    pub fields: Vec<AlertField>,
}

pub struct AlertView {
    pub alert_key: Seq<char>,
    pub blockchain: Seq<char>,
    pub protocol: Seq<char>,
    pub method: Seq<char>,
    pub name: Seq<char>,
    pub description: Seq<char>,
    pub fields: Seq<AlertFieldView>,
}

impl View for Alert {
    type V = AlertView;

    open spec fn view(&self) -> AlertView {
        AlertView {
            alert_key: self.alert_key@,
            blockchain: self.blockchain@,
            protocol: self.protocol@,
            method: self.method@,
            name: self.name@,
            description: self.description@,
            fields: fields_view(self.fields),
        }
    }
}

pub open spec fn fields_view(fields: Vec<AlertField>) -> Seq<AlertFieldView> {
    fields@.map_values(|f: AlertField| f@)
}

pub open spec fn values_view(values: Vec<SubscriptionFieldValue>) -> Seq<SubscriptionFieldValueView> {
    values@.map_values(|f: SubscriptionFieldValue| f@)
}

/// Copies each element of `v`.
pub fn duplicate_all<T: Record>(v: &Vec<T>) -> (r: Vec<T>)
    ensures
        r@.map_values(|x: T| x@) == v@.map_values(|x: T| x@),
{
    let mut r: Vec<T> = Vec::new();
    let mut i: usize = 0;
    while i < v.len()
        invariant
            i <= v@.len(),
            r@.len() == i,
            forall|j: int| 0 <= j < i ==> #[trigger] r@[j]@ == v@[j]@,
        decreases v@.len() - i,
    {
        r.push(v[i].duplicate());
        i = i + 1;
    }
    assert(r@.map_values(|x: T| x@) =~= v@.map_values(|x: T| x@));
    r
}

impl Record for Alert {
    fn duplicate(&self) -> (r: Self) {
        Alert {
            alert_key: self.alert_key.clone(),
            blockchain: self.blockchain.clone(),
            protocol: self.protocol.clone(),
            method: self.method.clone(),
            name: self.name.clone(),
            description: self.description.clone(),
            fields: duplicate_all(&self.fields),
        }
    }
}

/// A value supplied for one field of an alert.
#[derive(Clone, Debug, PartialEq, Eq)]
pub struct SubscriptionFieldValue {
    pub field_key: String,
    pub value: String,
}

pub struct SubscriptionFieldValueView {
    pub field_key: Seq<char>,
    pub value: Seq<char>,
}

impl View for SubscriptionFieldValue {
    type V = SubscriptionFieldValueView;

    open spec fn view(&self) -> SubscriptionFieldValueView {
        SubscriptionFieldValueView { field_key: self.field_key@, value: self.value@ }
    }
}

impl Record for SubscriptionFieldValue {
    fn duplicate(&self) -> (r: Self) {
        SubscriptionFieldValue { field_key: self.field_key.clone(), value: self.value.clone() }
    }
}

/// One subscriber's opt-in to an alert.
#[derive(Clone, Debug, PartialEq, Eq)]
pub struct Subscription {
    pub alert_key: String,
    pub field_values: Vec<SubscriptionFieldValue>,
}

pub struct SubscriptionView {
    pub alert_key: Seq<char>,
    pub field_values: Seq<SubscriptionFieldValueView>,
}

impl View for Subscription {
    type V = SubscriptionView;

    open spec fn view(&self) -> SubscriptionView {
        SubscriptionView {
            alert_key: self.alert_key@,
            field_values: values_view(self.field_values),
        }
    }
}

impl Record for Subscription {
    fn duplicate(&self) -> (r: Self) {
        Subscription {
            alert_key: self.alert_key.clone(),
            field_values: duplicate_all(&self.field_values),
        }
    }
}

/// Direction of a listing.
#[derive(Clone, Copy, Debug, PartialEq, Eq, Structural)]
pub enum OrderBy {
    Asc,
    Desc,
}

} // verus!
