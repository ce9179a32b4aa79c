//! Instances found among the names listed on the session bus.

use crate::profile::{derive_profile, profile_text};
use vstd::prelude::*;

verus! {

/// Bus names of the browser's remote-control endpoints start with this.
pub const BUS_PREFIX: &'static str = "org.mozilla.firefox.";

/// Object path of the remote-control endpoint.
pub const REMOTE_PATH: &'static str = "/org/mozilla/firefox/Remote";

/// Interface of the remote-control endpoint.
pub const REMOTE_INTERFACE: &'static str = "org.mozilla.firefox";

/// Method that takes an encoded command line.
pub const REMOTE_METHOD: &'static str = "OpenURL";

/// The characters of [`BUS_PREFIX`].
pub open spec fn bus_prefix() -> Seq<char> {
    seq!['o', 'r', 'g', '.', 'm', 'o', 'z', 'i', 'l', 'l', 'a', '.', 'f', 'i', 'r', 'e', 'f', 'o', 'x', '.']
}

/// Whether `s` starts with the bus-name prefix.
pub open spec fn has_bus_prefix(s: Seq<char>) -> bool {
    s.len() >= bus_prefix().len() && s.take(bus_prefix().len() as int) == bus_prefix()
}

/// The identifier in a bus name: what follows the prefix, where the name has
/// the prefix and what follows is non-empty and does not start with the prefix
/// again.
pub open spec fn bus_id(name: Seq<char>) -> Option<Seq<char>> {
    if has_bus_prefix(name) {
        let id = name.skip(bus_prefix().len() as int);
        if id.len() > 0 && !has_bus_prefix(id) {
            Some(id)
        } else {
            None
        }
    } else {
        None
    }
}

/// The identifiers of the instances among `names`, in listing order.
pub open spec fn listed_ids(names: Seq<String>) -> Seq<Seq<char>>
    decreases names.len(),
{
    if names.len() == 0 {
        Seq::empty()
    } else {
        let rest = listed_ids(names.drop_last());
        match bus_id(names.last()@) {
            Some(id) => rest.push(id),
            None => rest,
        }
    }
}

/// A running instance: its identifier and its display name.
pub struct Instance {
    pub id: String,
    pub profile: String,
}

/// `s` without `prefix`, where `s` starts with it.
pub fn strip_prefix<'a>(s: &'a str, prefix: &str) -> (r: Option<&'a str>)
    ensures
        r is Some <==> (s@.len() >= prefix@.len() && s@.take(prefix@.len() as int) == prefix@),
        r matches Some(t) ==> t@ == s@.skip(prefix@.len() as int),
{
    let n = s.unicode_len();
    let m = prefix.unicode_len();
    if n < m {
        return None;
    }
    let mut i: usize = 0;
    while i < m
        invariant
            m == prefix@.len(),
            n == s@.len(),
            m <= n,
            0 <= i <= m,
            s@.take(i as int) == prefix@.take(i as int),
        decreases m - i,
    {
        if s.get_char(i) != prefix.get_char(i) {
            assert(s@.take(m as int)[i as int] != prefix@[i as int]);
            return None;
        }
        assert(s@.take(i + 1) == s@.take(i as int).push(s@[i as int]));
        assert(prefix@.take(i + 1) == prefix@.take(i as int).push(prefix@[i as int]));
        i = i + 1;
    }
    assert(prefix@.take(m as int) == prefix@);
    Some(s.substring_char(m, n))
}

/// The instance identifier in bus name `name`, where it has the prefix.
pub fn bus_name_id(name: &str) -> (r: Option<&str>)
    ensures
        r is Some <==> bus_id(name@) is Some,
        r matches Some(t) ==> t@ == bus_id(name@)->Some_0,
{
    proof {
        reveal_strlit("org.mozilla.firefox.");
    }
    assert(BUS_PREFIX@ =~= bus_prefix());
    match strip_prefix(name, BUS_PREFIX) {
        Some(id) => {
            if id.unicode_len() == 0 {
                None
            } else if strip_prefix(id, BUS_PREFIX).is_some() {
                None
            } else {
                Some(id)
            }
        },
        None => None,
    }
}

/// The bus name that addresses the instance with identifier `id`.
pub fn bus_destination(id: &str) -> (r: String)
    ensures
        r@ == bus_prefix() + id@,
{
    proof {
        reveal_strlit("org.mozilla.firefox.");
    }
    assert(BUS_PREFIX@ =~= bus_prefix());
    String::from_str(BUS_PREFIX).concat(id)
}

/// The instances among the listed bus names, in listing order, each with the
/// identifier that follows the prefix and the display name derived from it.
/// Names without the prefix, and names whose remainder is empty or starts with
/// the prefix again, are left out.
pub fn instances_from_names(names: &Vec<String>) -> (r: Vec<Instance>)
    ensures
        r@.len() == listed_ids(names@).len(),
        forall|k: int|
            0 <= k < r@.len() ==> {
                &&& (#[trigger] r@[k]).id@ == listed_ids(names@)[k]
                &&& r@[k].profile@ == profile_text(listed_ids(names@)[k])
                &&& r@[k].id@.len() > 0
                &&& !has_bus_prefix(r@[k].id@)
            },
{
    let mut out: Vec<Instance> = Vec::new();
    let mut i: usize = 0;
    while i < names.len()
        invariant
            0 <= i <= names@.len(),
            out@.len() == listed_ids(names@.take(i as int)).len(),
            forall|k: int|
                0 <= k < out@.len() ==> {
                    &&& (#[trigger] out@[k]).id@ == listed_ids(names@.take(i as int))[k]
                    &&& out@[k].profile@ == profile_text(listed_ids(names@.take(i as int))[k])
                    &&& out@[k].id@.len() > 0
                    &&& !has_bus_prefix(out@[k].id@)
                },
        decreases names@.len() - i,
    {
        proof {
            assert(names@.take(i + 1).drop_last() == names@.take(i as int));
            assert(names@.take(i + 1).last() == names@[i as int]);
        }
        match bus_name_id(names[i].as_str()) {
            Some(id) => {
                let profile = derive_profile(id).into_text();
                out.push(Instance { id: id.to_string(), profile });
            },
            None => {},
        }
        i = i + 1;
    }
    assert(names@.take(names@.len() as int) == names@);
    out
}

/// Every listed instance comes from a name that carries the exact prefix:
/// for each identifier found there is a listed name equal to the prefix followed
/// by it, the identifier is non-empty and does not itself start with the prefix,
/// and no more instances are found than names were listed.
pub proof fn lemma_only_prefixed(names: Seq<String>)
    ensures
        listed_ids(names).len() <= names.len(),
        forall|k: int|
            0 <= k < listed_ids(names).len() ==> exists|j: int|
                0 <= j < names.len() && names[j]@ == bus_prefix() + #[trigger] listed_ids(names)[k],
        forall|k: int|
            0 <= k < listed_ids(names).len() ==> (#[trigger] listed_ids(names)[k]).len() > 0
                && !has_bus_prefix(listed_ids(names)[k]),
    decreases names.len(),
{
    if names.len() > 0 {
        let d = names.drop_last();
        lemma_only_prefixed(d);
        let ids = listed_ids(names);
        assert forall|k: int| 0 <= k < ids.len() implies exists|j: int|
            0 <= j < names.len() && names[j]@ == bus_prefix() + #[trigger] ids[k] by {
            if k < listed_ids(d).len() {
                let j = choose|j: int| 0 <= j < d.len() && d[j]@ == bus_prefix() + listed_ids(d)[k];
                assert(names[j] == d[j]);
            } else {
                let name = names.last()@;
                assert(name == name.take(bus_prefix().len() as int) + name.skip(
                    bus_prefix().len() as int,
                ));
                assert(names[names.len() - 1]@ == bus_prefix() + ids[k]);
            }
        }
    }
}

/// A listed name with the prefix is found, and a name without it is not:
/// a name's instance count is one exactly when it starts with the prefix.
pub proof fn lemma_prefix_decides(names: Seq<String>, name: String)
    ensures
        listed_ids(names.push(name)) == (match bus_id(name@) {
            Some(id) => listed_ids(names).push(id),
            None => listed_ids(names),
        }),
{
    assert(names.push(name).drop_last() == names);
}

} // verus!
