use vstd::prelude::*;

verus! {

/// A topic filter as requested in a SUBSCRIBE packet.  Two filters count as
/// the same subscription when their topic names agree, whatever their
/// quality-of-service levels.
#[derive(Debug)]
pub struct Topicfilter {
    pub topic_name: String,
    pub qos: u8,
}

impl PartialEq for Topicfilter {
    fn eq(&self, other: &Self) -> (r: bool) {
        self.topic_name == other.topic_name
    }
}

impl vstd::std_specs::cmp::PartialEqSpecImpl for Topicfilter {
    open spec fn obeys_eq_spec() -> bool {
        true
    }

    open spec fn eq_spec(&self, other: &Self) -> bool {
        self.topic_name@ == other.topic_name@
    }
}

} // verus!
