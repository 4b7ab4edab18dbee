//! Uniform response envelope `{code, msg, data}` used by every endpoint.

use vstd::prelude::*;

verus! {

/// Code that marks a successful response.
pub const SUCCESS_CODE: i32 = 0;

/// Code that marks a failed response.
pub const ERROR_CODE: i32 = 1;

/// The uniform JSON envelope: `code` is zero on success, `data` carries the
/// payload, `msg` the error text.
pub struct Res<T> {
    pub code: i32,
    pub msg: String,
    pub data: Option<T>,
}

impl<T> Res<T> {
    /// A successful envelope: code zero, empty message, the given payload.
    pub fn success(data: T) -> (r: Res<T>)
        ensures
            r.code == SUCCESS_CODE,
            r.msg@ == Seq::<char>::empty(),
            r.data == Some(data),
    {
        Res { code: SUCCESS_CODE, msg: String::new(), data: Some(data) }
    }

    /// A failed envelope: code one, the given message, no payload.
    pub fn error(msg: &str) -> (r: Res<T>)
        ensures
            r.code == ERROR_CODE,
            r.msg@ == msg@,
            r.data is None,
    {
        Res { code: ERROR_CODE, msg: msg.to_owned(), data: None }
    }

    /// An envelope is successful exactly when its code is zero.
    pub fn is_success(&self) -> (r: bool)
        ensures
            r == (self.code == SUCCESS_CODE),
    {
        self.code == SUCCESS_CODE
    }
}

/// One page of a paged listing, together with the total row count.
pub struct PageRes<T> {
    pub page_num: i32,
    pub page_size: i32,
    pub total: u64,
    pub list: Vec<T>,
}

/// Response to a replicated write: the value the state machine returned, if
/// the command produced one.
pub struct RaftResponse {
    pub value: Option<String>,
}

} // verus!
