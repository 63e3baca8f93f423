use vstd::prelude::*;

verus! {

/// Instantiation of a lockup: who owns it, which contract and token it locks, and how much.
#[derive(Clone, Debug, PartialEq, Eq)]
pub struct InitMsg {
    pub owner_addr: Vec<u8>,
    pub anchor_contract_addr: Vec<u8>,
    pub lockup_token: Vec<u8>,
    pub lockup_amount: i32,
}

#[derive(Clone, Debug, PartialEq, Eq)]
pub enum HandleMsg {
    Increment {},
    Reset { count: i32 },
}

#[derive(Clone, Debug, PartialEq, Eq)]
pub enum QueryMsg {
    GetCount {},
}

#[derive(Clone, Debug, PartialEq, Eq)]
pub struct CountResponse {
    pub count: i32,
}

} // verus!
