//! Picking resources out of the inventory by a regular expression over their
//! ids or their file names, as the command line asks for them.
use vstd::prelude::*;
use crate::datamodel::datamodel::{Resource, Resources, names_file, file_name};

verus! {

/// `regex`'s compiled regular expression.
#[verifier::external_type_specification]
#[verifier::external_body]
pub struct ExRegex(regex::Regex);

/// Whether `regex::Regex::new` accepts `pattern` (a valid expression, within
/// the default size limit).
pub uninterp spec fn regex_compiles(pattern: Seq<char>) -> bool;

/// Whether the expression compiled from `pattern` matches anywhere in `text`,
/// as `regex::Regex::is_match` answers.
pub uninterp spec fn regex_finds(pattern: Seq<char>, text: Seq<char>) -> bool;

/// A compiled regular expression together with the pattern it was compiled
/// from. Only `compile` makes one, so the expression is always the one that
/// `regex` compiles from `source`.
struct Pattern {
    source: String,
    compiled: regex::Regex,
}

impl Pattern {
    /// The pattern the expression was compiled from.
    spec fn source(self) -> Seq<char> {
        self.source@
    }

    /// Compiles `pattern` with `regex::Regex::new`: `None` exactly when
    /// `regex` refuses it.
    #[verifier::external_body]
    fn compile(pattern: &str) -> (r: Option<Pattern>)
        ensures
            r is Some <==> regex_compiles(pattern@),
            r is Some ==> r->Some_0.source() == pattern@,
    {
        match regex::Regex::new(pattern) {
            Ok(compiled) => Some(Pattern { source: pattern.to_string(), compiled }),
            Err(_) => None,
        }
    }

    /// `regex::Regex::is_match`: whether the expression matches anywhere in
    /// `text`.
    #[verifier::external_body]
    fn is_match(&self, text: &str) -> (b: bool)
        ensures
            b == regex_finds(self.source(), text@),
    {
        self.compiled.is_match(text)
    }
}

/// The resources, in order, whose key the pattern matches.
pub open spec fn with_matching_id(items: Seq<(Seq<char>, Resource)>, pattern: Seq<char>) -> Seq<Resource>
    decreases items.len(),
{
    if items.len() == 0 {
        Seq::empty()
    } else if regex_finds(pattern, items.last().0) {
        with_matching_id(items.drop_last(), pattern).push(items.last().1)
    } else {
        with_matching_id(items.drop_last(), pattern)
    }
}

/// The resources, in order, whose file name the pattern matches.
pub open spec fn with_matching_name(items: Seq<(Seq<char>, Resource)>, pattern: Seq<char>) -> Seq<Resource>
    decreases items.len(),
{
    if items.len() == 0 {
        Seq::empty()
    } else if regex_finds(pattern, file_name(items.last().1.path@)) {
        with_matching_name(items.drop_last(), pattern).push(items.last().1)
    } else {
        with_matching_name(items.drop_last(), pattern)
    }
}

/// Every resource's path names a file.
pub open spec fn all_name_files(items: Seq<(Seq<char>, Resource)>) -> bool {
    forall|i: int| 0 <= i < items.len() ==> names_file(#[trigger] items[i].1.path@)
}

/// The resources whose id the regular expression `pattern` matches, in
/// inventory order; `None` when `pattern` is not a regular expression.
pub fn resources_matching_id<'a>(resources: &'a Resources, pattern: &str) -> (r: Option<Vec<&'a Resource>>)
    ensures
        r is Some <==> regex_compiles(pattern@),
        r is Some ==> r->Some_0@.map_values(|x: &Resource| *x)
            == with_matching_id(resources.resources.items(), pattern@),
{
    let re = match Pattern::compile(pattern) {
        Some(re) => re,
        None => return None,
    };
    let ghost items = resources.resources.items();
    let n = resources.resources.len();
    let mut r: Vec<&'a Resource> = Vec::new();
    let mut i: usize = 0;
    assert(items.take(0) =~= Seq::<(Seq<char>, Resource)>::empty());
    assert(r@.map_values(|x: &Resource| *x) =~= Seq::<Resource>::empty());
    while i < n
        invariant
            i <= n == items.len(),
            items == resources.resources.items(),
            re.source() == pattern@,
            r@.map_values(|x: &Resource| *x) == with_matching_id(items.take(i as int), pattern@),
        decreases n - i,
    {
        let k = resources.resources.key_at(i);
        let x = resources.resources.value_at(i);
        proof {
            assert(items.take(i + 1).drop_last() =~= items.take(i as int));
            assert(items.take(i + 1).last() == items[i as int]);
        }
        if re.is_match(k.as_str()) {
            r.push(x);
            assert(r@.map_values(|x: &Resource| *x) =~= with_matching_id(items.take(i as int), pattern@).push(*x));
        }
        i = i + 1;
    }
    assert(items.take(n as int) =~= items);
    Some(r)
}

/// The resources whose file name the regular expression `pattern` matches,
/// in inventory order; `None` when `pattern` is not a regular expression.
/// Every resource's path must name a file.
pub fn resources_matching_name<'a>(resources: &'a Resources, pattern: &str) -> (r: Option<Vec<&'a Resource>>)
    requires
        all_name_files(resources.resources.items()),
    ensures
        r is Some <==> regex_compiles(pattern@),
        r is Some ==> r->Some_0@.map_values(|x: &Resource| *x)
            == with_matching_name(resources.resources.items(), pattern@),
{
    let re = match Pattern::compile(pattern) {
        Some(re) => re,
        None => return None,
    };
    let ghost items = resources.resources.items();
    let n = resources.resources.len();
    let mut r: Vec<&'a Resource> = Vec::new();
    let mut i: usize = 0;
    assert(items.take(0) =~= Seq::<(Seq<char>, Resource)>::empty());
    assert(r@.map_values(|x: &Resource| *x) =~= Seq::<Resource>::empty());
    while i < n
        invariant
            i <= n == items.len(),
            items == resources.resources.items(),
            all_name_files(items),
            re.source() == pattern@,
            r@.map_values(|x: &Resource| *x) == with_matching_name(items.take(i as int), pattern@),
        decreases n - i,
    {
        let x = resources.resources.value_at(i);
        proof {
            assert(items.take(i + 1).drop_last() =~= items.take(i as int));
            assert(items.take(i + 1).last() == items[i as int]);
            assert(names_file(items[i as int].1.path@));
        }
        let name = x.get_filename();
        if re.is_match(name.as_str()) {
            r.push(x);
            assert(r@.map_values(|x: &Resource| *x) =~= with_matching_name(items.take(i as int), pattern@).push(*x));
        }
        i = i + 1;
    }
    assert(items.take(n as int) =~= items);
    Some(r)
}

} // verus!
