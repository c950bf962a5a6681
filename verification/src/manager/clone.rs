//! Cloning a published gallery: which local files go, which remote files
//! come, and which are fetched again.
use vstd::prelude::*;

use crate::text::push_str;
use crate::datamodel::datamodel::{Resource, Resources};

verus! {

/// Why a clone failed: an error of a lower layer, by its message, or a
/// message of the clone itself.
#[derive(Debug)]
pub struct CloneError {
    pub source: Option<String>,
    pub error: Option<String>,
}

impl CloneError {
    /// An error of the clone itself.
    pub fn from_message(e: &str) -> (r: CloneError)
        ensures
            r.source is None,
            r.error matches Some(m) && m@ == e@,
    {
        CloneError { source: None, error: Some(e.to_string()) }
    }

    /// An error of a lower layer (network, YAML, file system), by its message.
    pub fn from_source(message: String) -> (r: CloneError)
        ensures
            r.source == Some(message),
            r.error is None,
    {
        CloneError { source: Some(message), error: None }
    }

    /// The error as the gallery prints it.
    pub fn describe(&self) -> (s: String)
        ensures
            s@ == (match self.source {
                Some(m) => "CloneError (Nested) : "@ + m@,
                None => match self.error {
                    Some(e) => "CloneError "@ + e@,
                    None => "CloneError"@,
                },
            }),
    {
        let mut s = String::new();
        match &self.source {
            Some(m) => {
                push_str(&mut s, "CloneError (Nested) : ");
                push_str(&mut s, m.as_str());
            },
            None => match &self.error {
                Some(e) => {
                    push_str(&mut s, "CloneError ");
                    push_str(&mut s, e.as_str());
                },
                None => push_str(&mut s, "CloneError"),
            },
        }
        s
    }
}

/// What a clone does with the files of the local gallery.
#[derive(Debug)]
pub struct ClonePlan {
    /// Local resources the remote gallery no longer has: their files go.
    pub remove: Vec<String>,
    /// Remote resources the local gallery lacks: their files are fetched.
    pub add: Vec<String>,
    /// Resources both have with different content: their files are fetched again.
    pub update: Vec<String>,
}

/// The keys of `items`, in order, that `keep` accepts.
pub open spec fn keys_where(items: Seq<(Seq<char>, Resource)>, keep: spec_fn(Seq<char>, Resource) -> bool) -> Seq<Seq<char>>
    decreases items.len(),
{
    if items.len() == 0 {
        Seq::empty()
    } else if keep(items.last().0, items.last().1) {
        keys_where(items.drop_last(), keep).push(items.last().0)
    } else {
        keys_where(items.drop_last(), keep)
    }
}

/// The keys of `m`, in order, that `keep` accepts.
fn collect_keys(m: &Resources, keep: Ghost<spec_fn(Seq<char>, Resource) -> bool>, flags: &Vec<bool>) -> (r: Vec<String>)
    requires
        flags@.len() == m.resources.items().len(),
        forall|i: int| 0 <= i < flags@.len() ==> #[trigger] flags@[i] == keep@(m.resources.items()[i].0,
            m.resources.items()[i].1),
    ensures
        r@.map_values(|s: String| s@) == keys_where(m.resources.items(), keep@),
{
    let ghost items = m.resources.items();
    let n = m.resources.len();
    let mut r: Vec<String> = Vec::new();
    let mut i: usize = 0;
    assert(items.take(0) =~= Seq::<(Seq<char>, Resource)>::empty());
    assert(r@.map_values(|s: String| s@) =~= Seq::<Seq<char>>::empty());
    while i < n
        invariant
            i <= n == items.len(),
            items == m.resources.items(),
            flags@.len() == n,
            forall|j: int| 0 <= j < flags@.len() ==> #[trigger] flags@[j] == keep@(items[j].0, items[j].1),
            r@.map_values(|s: String| s@) == keys_where(items.take(i as int), keep@),
        decreases n - i,
    {
        proof { assert(items.take(i + 1).drop_last() =~= items.take(i as int)); }
        if flags[i] {
            r.push(m.resources.key_at(i).clone());
            assert(r@.map_values(|s: String| s@) =~= keys_where(items.take(i as int), keep@).push(items[i as int].0));
        }
        i = i + 1;
    }
    assert(items.take(n as int) =~= items);
    r
}

/// What a clone of `remote` over `local` does: local resources the remote
/// lacks are removed, remote resources the local gallery lacks are added, and
/// those both have with different content hashes are updated; each list in
/// the order of the gallery it is taken from.
pub fn clone_plan(local: &Resources, remote: &Resources) -> (p: ClonePlan)
    ensures
        p.remove@.map_values(|s: String| s@) == keys_where(local.resources.items(),
            |k: Seq<char>, r: Resource| !remote.resources@.dom().contains(k)),
        p.add@.map_values(|s: String| s@) == keys_where(remote.resources.items(),
            |k: Seq<char>, r: Resource| !local.resources@.dom().contains(k)),
        p.update@.map_values(|s: String| s@) == keys_where(remote.resources.items(),
            |k: Seq<char>, r: Resource| local.resources@.dom().contains(k)
                && local.resources@[k].content_hash@ != r.content_hash@),
{
    let nl = local.resources.len();
    let nr = remote.resources.len();
    let mut remove_flags: Vec<bool> = Vec::new();
    let mut i: usize = 0;
    while i < nl
        invariant
            i <= nl == local.resources.items().len(),
            remove_flags@.len() == i,
            forall|j: int| 0 <= j < i ==> #[trigger] remove_flags@[j]
                == !remote.resources@.dom().contains(local.resources.items()[j].0),
        decreases nl - i,
    {
        remove_flags.push(!remote.resources.contains_key(local.resources.key_at(i).as_str()));
        i = i + 1;
    }
    let mut add_flags: Vec<bool> = Vec::new();
    let mut update_flags: Vec<bool> = Vec::new();
    let mut i: usize = 0;
    while i < nr
        invariant
            i <= nr == remote.resources.items().len(),
            add_flags@.len() == i,
            update_flags@.len() == i,
            forall|j: int| 0 <= j < i ==> #[trigger] add_flags@[j]
                == !local.resources@.dom().contains(remote.resources.items()[j].0),
            forall|j: int| 0 <= j < i ==> #[trigger] update_flags@[j]
                == (local.resources@.dom().contains(remote.resources.items()[j].0)
                && local.resources@[remote.resources.items()[j].0].content_hash@
                != remote.resources.items()[j].1.content_hash@),
        decreases nr - i,
    {
        let k = remote.resources.key_at(i);
        let theirs = remote.resources.value_at(i);
        match local.resources.get(k.as_str()) {
            Some(ours) => {
                add_flags.push(false);
                update_flags.push(!crate::text::str_eq(ours.content_hash.as_str(), theirs.content_hash.as_str()));
            },
            None => {
                add_flags.push(true);
                update_flags.push(false);
            },
        }
        i = i + 1;
    }
    let remove = collect_keys(local, Ghost(|k: Seq<char>, r: Resource| !remote.resources@.dom().contains(k)), &remove_flags);
    let add = collect_keys(remote, Ghost(|k: Seq<char>, r: Resource| !local.resources@.dom().contains(k)), &add_flags);
    let update = collect_keys(remote, Ghost(|k: Seq<char>, r: Resource| local.resources@.dom().contains(k)
        && local.resources@[k].content_hash@ != r.content_hash@), &update_flags);
    ClonePlan { remove, add, update }
}

} // verus!
