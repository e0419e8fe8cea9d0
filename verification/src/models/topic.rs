use vstd::prelude::*;

verus! {

/// A topic of the broker's registry: its name, the retained message as a
/// payload and quality-of-service pair (an empty payload means no retained
/// message), and the subscribers as client-id and granted-quality pairs.
#[derive(Debug)]
pub struct Topic {
    pub topic_name: String,
    pub retained_msg: (String, u8),
    pub client_ids: Vec<(String, u8)>,
}

/// Each client id appears at most once in a subscriber list.
pub open spec fn client_ids_unique(l: Seq<(String, u8)>) -> bool {
    forall|i: int, j: int| 0 <= i < j < l.len() ==> l[i].0@ != l[j].0@
}

/// Every topic of a registry keeps its subscriber list free of duplicates.
pub open spec fn topics_wf(topics: Seq<Topic>) -> bool {
    forall|t: int| 0 <= t < topics.len() ==> client_ids_unique(#[trigger] topics[t].client_ids@)
}

/// The first topic with the given name, or -1 when there is none.
pub open spec fn find_topic_index(topics: Seq<Topic>, name: Seq<char>) -> int
    decreases topics.len(),
{
    if topics.len() == 0 {
        -1
    } else if topics[0].topic_name@ == name {
        0
    } else {
        let r = find_topic_index(topics.drop_first(), name);
        if r < 0 {
            -1
        } else {
            r + 1
        }
    }
}

/// What the first-match search promises: a hit names a topic with the name
/// and nothing before it has the name; a miss means no topic has it.
pub proof fn lemma_find_topic_index(topics: Seq<Topic>, name: Seq<char>)
    ensures
        ({
            let r = find_topic_index(topics, name);
            &&& r >= 0 ==> {
                &&& r < topics.len()
                &&& topics[r].topic_name@ == name
                &&& forall|j: int| 0 <= j < r ==> topics[j].topic_name@ != name
            }
            &&& r < 0 ==> forall|j: int| 0 <= j < topics.len() ==> topics[j].topic_name@ != name
        }),
    decreases topics.len(),
{
    if topics.len() > 0 && topics[0].topic_name@ != name {
        let tail = topics.drop_first();
        lemma_find_topic_index(tail, name);
        assert(forall|j: int| 0 <= j < tail.len() ==> #[trigger] tail[j] == topics[j + 1]);
        let rd = find_topic_index(tail, name);
        if rd >= 0 {
            assert forall|j: int| 0 <= j < rd + 1 implies topics[j].topic_name@ != name by {
                if j >= 1 {
                    assert(tail[j - 1].topic_name@ != name);
                }
            }
        } else {
            assert forall|j: int| 0 <= j < topics.len() implies topics[j].topic_name@ != name by {
                if j >= 1 {
                    assert(tail[j - 1].topic_name@ != name);
                }
            }
        }
    }
}

/// The first subscriber pair with the given client id, or -1 when there is
/// none.
pub open spec fn find_pair_index(l: Seq<(String, u8)>, id: Seq<char>) -> int
    decreases l.len(),
{
    if l.len() == 0 {
        -1
    } else if l[0].0@ == id {
        0
    } else {
        let r = find_pair_index(l.drop_first(), id);
        if r < 0 {
            -1
        } else {
            r + 1
        }
    }
}

/// What the first-match search promises: a hit names a pair with the id and
/// nothing before it has the id; a miss means no pair has it.
pub proof fn lemma_find_pair_index(l: Seq<(String, u8)>, id: Seq<char>)
    ensures
        ({
            let r = find_pair_index(l, id);
            &&& r >= 0 ==> {
                &&& r < l.len()
                &&& l[r].0@ == id
                &&& forall|j: int| 0 <= j < r ==> l[j].0@ != id
            }
            &&& r < 0 ==> forall|j: int| 0 <= j < l.len() ==> l[j].0@ != id
        }),
    decreases l.len(),
{
    if l.len() > 0 && l[0].0@ != id {
        let tail = l.drop_first();
        lemma_find_pair_index(tail, id);
        assert(forall|j: int| 0 <= j < tail.len() ==> #[trigger] tail[j] == l[j + 1]);
        let rd = find_pair_index(tail, id);
        if rd >= 0 {
            assert forall|j: int| 0 <= j < rd + 1 implies l[j].0@ != id by {
                if j >= 1 {
                    assert(tail[j - 1].0@ != id);
                }
            }
        } else {
            assert forall|j: int| 0 <= j < l.len() implies l[j].0@ != id by {
                if j >= 1 {
                    assert(tail[j - 1].0@ != id);
                }
            }
        }
    }
}

/// Removing an entry keeps a subscriber list free of duplicates.
pub proof fn lemma_unique_remove(l: Seq<(String, u8)>, p: int)
    requires
        client_ids_unique(l),
        0 <= p < l.len(),
    ensures
        client_ids_unique(l.remove(p)),
{
    let l2 = l.remove(p);
    assert forall|i: int, j: int| 0 <= i < j < l2.len() implies l2[i].0@ != l2[j].0@ by {
        let oi = if i < p {
            i
        } else {
            i + 1
        };
        let oj = if j < p {
            j
        } else {
            j + 1
        };
        assert(l2[i] == l[oi] && l2[j] == l[oj]);
    }
}

/// Replacing a client's pair keeps a subscriber list free of duplicates:
/// the first pair with the id leaves, the new pair enters at the end.
pub proof fn lemma_unique_replace(l: Seq<(String, u8)>, pair: (String, u8))
    requires
        client_ids_unique(l),
    ensures
        ({
            let p = find_pair_index(l, pair.0@);
            let base = if p < 0 {
                l
            } else {
                l.remove(p)
            };
            client_ids_unique(base.push(pair))
        }),
{
    let p = find_pair_index(l, pair.0@);
    lemma_find_pair_index(l, pair.0@);
    let base = if p < 0 {
        l
    } else {
        l.remove(p)
    };
    if p >= 0 {
        lemma_unique_remove(l, p);
        assert forall|j: int| 0 <= j < base.len() implies base[j].0@ != pair.0@ by {
            let oj = if j < p {
                j
            } else {
                j + 1
            };
            assert(base[j] == l[oj]);
        }
    }
    let l2 = base.push(pair);
    assert forall|i: int, j: int| 0 <= i < j < l2.len() implies l2[i].0@ != l2[j].0@ by {
        if j < base.len() {
            assert(l2[i] == base[i] && l2[j] == base[j]);
        } else {
            assert(l2[i] == base[i] && l2[j] == pair);
        }
    }
}

impl Topic {
    /// A fresh topic: no retained message, no subscribers.
    pub fn new(topic_name: String) -> (r: Topic)
        ensures
            r.topic_name == topic_name,
            r.retained_msg.0@ == Seq::<char>::empty(),
            r.retained_msg.1 == 0,
            r.client_ids@ == Seq::<(String, u8)>::empty(),
    {
        Topic { topic_name, retained_msg: (String::new(), 0), client_ids: Vec::new() }
    }
}

} // verus!
