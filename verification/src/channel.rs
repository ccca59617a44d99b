use vstd::prelude::*;

use crate::numbers::{spec_digits, u64_to_string};

verus! {

/// One named pipe's path under the channel directory.
#[derive(Debug, Clone)]
pub struct Channel(pub String);

/// `{dir}/{id}`: where a channel with the given id lives.
pub open spec fn spec_channel_path(dir: Seq<char>, id: u64) -> Seq<char> {
    dir + "/"@ + spec_digits(id as nat)
}

/// Relies on rand::random: a value drawn from the thread's generator; nothing
/// is promised of it.
#[verifier::external_body]
fn random_u64() -> u64 {
    rand::random()
}

impl Channel {
    /// Builds the path of the channel with the given id.
    pub fn with_id(dir: &str, id: u64) -> (r: Channel)
        ensures
            r.0@ == spec_channel_path(dir@, id),
    {
        let mut p = String::from_str(dir);
        p.append("/");
        let ds = u64_to_string(id);
        p.append(ds.as_str());
        Channel(p)
    }

    /// A channel under a freshly drawn name. Whatever id the generator hands
    /// out, the path is that id's path under `dir`.
    pub fn new(dir: &str) -> (r: Channel)
        ensures
            exists|id: u64| r.0@ == spec_channel_path(dir@, id),
    {
        let id = random_u64();
        let r = Channel::with_id(dir, id);
        proof {
            assert(r.0@ == spec_channel_path(dir@, id));
        }
        r
    }

    pub fn path(&self) -> (r: &str)
        ensures
            r@ == self.0@,
    {
        self.0.as_str()
    }
}

} // verus!
