//! The instance id a running sandbox is known by: the decimal process id
//! of the launcher.

use vstd::prelude::*;

use crate::numfmt::{dec_chars, u32_to_dec};

verus! {

#[derive(Debug)]
pub struct Instance {
    pub id: String,
}

impl Instance {
    /// An instance id from the launcher's process id.
    pub fn from_pid(pid: u32) -> (r: Instance)
        ensures
            r.id@ == dec_chars(pid as nat),
    {
        Instance { id: u32_to_dec(pid) }
    }

    pub fn get_id(&self) -> (r: &str)
        ensures
            r@ == self.id@,
    {
        self.id.as_str()
    }
}

} // verus!
