use vstd::prelude::*;

verus! {

/// The connect-flags byte of a CONNECT packet, one field per flag bit.
#[derive(Debug, Clone, Copy, PartialEq, Eq, Structural)]
pub struct ConnectFlags {
    pub clean_session_flag: bool,
    pub will_flag: bool,
    pub will_qos_flag: u8,
    pub will_retain_flag: bool,
    pub password_flag: bool,
    pub username_flag: bool,
}

impl ConnectFlags {
    /// Constructor for creating a new ConnectFlags instance.
    pub fn new(
        clean_session_flag: bool,
        will_flag: bool,
        will_qos_flag: u8,
        will_retain_flag: bool,
        password_flag: bool,
        username_flag: bool,
    ) -> (r: ConnectFlags)
        ensures
            r == (ConnectFlags {
                clean_session_flag,
                will_flag,
                will_qos_flag,
                will_retain_flag,
                password_flag,
                username_flag,
            }),
    {
        ConnectFlags {
            clean_session_flag,
            will_flag,
            will_qos_flag,
            will_retain_flag,
            password_flag,
            username_flag,
        }
    }
}

} // verus!
