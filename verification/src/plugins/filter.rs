//! Shared `show`/`hide` regex filter on a collection plugin's primary key:
//! network (interface name), fs (mount point) and diskio (disk name) all
//! filter their items the same way.
//!
//! `hide` wins over `show`; an empty `show` list means "everything".
use vstd::prelude::*;
use crate::namemap::{distinct_keys, NameMap};
use crate::text::texts;

verus! {

/// Whether `regex_lite::Regex::new` accepts `pattern`.
pub uninterp spec fn regex_valid(pattern: Seq<char>) -> bool;

/// Whether the regex compiled from `pattern` matches somewhere in
/// `haystack` (`regex_lite::Regex::is_match`).
pub uninterp spec fn regex_matches(pattern: Seq<char>, haystack: Seq<char>) -> bool;

/// Compiles `pattern` with `regex_lite::Regex::new` and runs
/// `Regex::is_match` on `haystack`. Claims: `None` exactly when the pattern
/// does not compile, else whether it matches. Both are taken as functions of
/// the texts alone (the regex syntax and matching semantics of `regex_lite`
/// are not restated here).
#[verifier::external_body]
pub(crate) fn regex_match(pattern: &str, haystack: &str) -> (r: Option<bool>)
    ensures
        r is Some <==> regex_valid(pattern@),
        r matches Some(b) ==> b == regex_matches(pattern@, haystack@),
{
    match regex_lite::Regex::new(pattern) {
        Ok(re) => Some(re.is_match(haystack)),
        Err(_) => None,
    }
}

/// Whether every pattern compiles.
pub open spec fn all_valid(patterns: Seq<Seq<char>>) -> bool {
    forall|i: int| 0 <= i < patterns.len() ==> regex_valid(#[trigger] patterns[i])
}

/// Whether some pattern matches `key`.
pub open spec fn any_match(patterns: Seq<Seq<char>>, key: Seq<char>) -> bool {
    exists|i: int| 0 <= i < patterns.len() && regex_matches(#[trigger] patterns[i], key)
}

/// Whether an item with primary key `key` is shown: some `show` pattern
/// matches (or `show` is empty) and no `hide` pattern does.
pub open spec fn passes(show: Seq<Seq<char>>, hide: Seq<Seq<char>>, key: Seq<char>) -> bool {
    (show.len() == 0 || any_match(show, key)) && !any_match(hide, key)
}

/// `hide` wins over `show`: a key that a `hide` pattern matches is never
/// shown, whatever `show` holds.
pub proof fn hide_wins_over_show(show: Seq<Seq<char>>, hide: Seq<Seq<char>>, key: Seq<char>)
    requires
        any_match(hide, key),
    ensures
        !passes(show, hide, key),
{
}

/// With both lists empty every key is shown.
pub proof fn empty_lists_show_everything(key: Seq<char>)
    ensures
        passes(Seq::empty(), Seq::empty(), key),
{
}

/// Whether every pattern of `patterns` compiles (each one is compiled).
pub fn patterns_valid(patterns: &[String]) -> (r: bool)
    ensures
        r == all_valid(texts(patterns@)),
{
    let mut i: usize = 0;
    while i < patterns.len()
        invariant
            0 <= i <= patterns@.len(),
            forall|j: int| 0 <= j < i ==> regex_valid(#[trigger] texts(patterns@)[j]),
        decreases patterns@.len() - i,
    {
        if regex_match(patterns[i].as_str(), "").is_none() {
            assert(!regex_valid(texts(patterns@)[i as int]));
            return false;
        }
        i = i + 1;
    }
    true
}

/// Whether some pattern of `patterns` matches `key`; every pattern must
/// compile.
fn matches_any(patterns: &Vec<String>, key: &str) -> (r: bool)
    requires
        all_valid(texts(patterns@)),
    ensures
        r == any_match(texts(patterns@), key@),
{
    let mut i: usize = 0;
    while i < patterns.len()
        invariant
            0 <= i <= patterns@.len(),
            all_valid(texts(patterns@)),
            forall|j: int| 0 <= j < i ==> !regex_matches(#[trigger] texts(patterns@)[j], key@),
        decreases patterns@.len() - i,
    {
        assert(regex_valid(texts(patterns@)[i as int]));
        match regex_match(patterns[i].as_str(), key) {
            Some(true) => {
                assert(regex_matches(texts(patterns@)[i as int], key@));
                return true;
            },
            _ => {},
        }
        i = i + 1;
    }
    false
}

/// The texts of a slice of strings, copied.
fn to_vec(v: &[String]) -> (r: Vec<String>)
    ensures
        texts(r@) == texts(v@),
{
    let mut r: Vec<String> = Vec::new();
    let mut i: usize = 0;
    while i < v.len()
        invariant
            0 <= i <= v@.len(),
            texts(r@) == texts(v@).take(i as int),
        decreases v@.len() - i,
    {
        let ghost r0 = r@;
        r.push(v[i].clone());
        assert(r@ == r0.push(v@[i as int]));
        assert(texts(r@) =~= texts(r0).push(v@[i as int]@));
        assert(texts(v@).take(i + 1) =~= texts(v@).take(i as int).push(v@[i as int]@));
        i = i + 1;
    }
    assert(texts(v@).take(v@.len() as int) =~= texts(v@));
    r
}

/// `show`/`hide` regex lists on a collection's primary key. Every pattern
/// compiles.
pub struct KeyFilter {
    show: Vec<String>,
    hide: Vec<String>,
}

impl KeyFilter {
    #[verifier::type_invariant]
    spec fn wf(self) -> bool {
        all_valid(texts(self.show@)) && all_valid(texts(self.hide@))
    }

    pub closed spec fn show_patterns(&self) -> Seq<Seq<char>> {
        texts(self.show@)
    }

    pub closed spec fn hide_patterns(&self) -> Seq<Seq<char>> {
        texts(self.hide@)
    }

    /// The filter of the given lists, whose patterns all compile.
    pub fn new(show: &[String], hide: &[String]) -> (f: Self)
        requires
            all_valid(texts(show@)),
            all_valid(texts(hide@)),
        ensures
            f.show_patterns() == texts(show@),
            f.hide_patterns() == texts(hide@),
    {
        KeyFilter { show: to_vec(show), hide: to_vec(hide) }
    }

    /// The filter of the given lists, or `None` when a pattern does not
    /// compile.
    pub fn checked(show: &[String], hide: &[String]) -> (r: Option<Self>)
        ensures
            r is Some <==> all_valid(texts(show@)) && all_valid(texts(hide@)),
            r matches Some(f) ==> f.show_patterns() == texts(show@) && f.hide_patterns() == texts(hide@),
    {
        if patterns_valid(show) && patterns_valid(hide) {
            Some(KeyFilter::new(show, hide))
        } else {
            None
        }
    }

    /// Whether an item with this primary key appears in the output.
    pub fn shown(&self, key: &str) -> (r: bool)
        ensures
            r == passes(self.show_patterns(), self.hide_patterns(), key@),
    {
        proof {
            use_type_invariant(self);
        }
        let shown = self.show.len() == 0 || matches_any(&self.show, key);
        shown && !matches_any(&self.hide, key)
    }
}

/// Whether one of the first `n` entries of `e` has key `k`.
pub open spec fn key_before<V>(e: Seq<(String, V)>, n: int, k: Seq<char>) -> bool {
    exists|j: int| 0 <= j < n && (#[trigger] e[j]).0@ == k
}

/// The entries of `m` whose key `f` shows.
pub fn retain_shown<V: Copy>(f: &KeyFilter, m: &NameMap<V>) -> (r: NameMap<V>)
    ensures
        r.view() == Map::new(
            |k: Seq<char>| m.view().contains_key(k) && passes(f.show_patterns(), f.hide_patterns(), k),
            |k: Seq<char>| m.view()[k],
        ),
{
    m.lemma_view();
    let ghost e = m.entries_seq();
    let mut r: NameMap<V> = NameMap::new();
    let mut i: usize = 0;
    while i < m.len()
        invariant
            0 <= i <= e.len(),
            e == m.entries_seq(),
            distinct_keys(e),
            forall|j: int| 0 <= j < e.len() ==> #[trigger] m.view()[e[j].0@] == e[j].1,
            forall|k: Seq<char>| #[trigger] m.view().contains_key(k) <==> key_before(e, e.len() as int, k),
            r.view() == Map::new(
                |k: Seq<char>| key_before(e, i as int, k) && passes(f.show_patterns(), f.hide_patterns(), k),
                |k: Seq<char>| m.view()[k],
            ),
        decreases e.len() - i,
    {
        let entry = m.entry(i);
        let ghost k = entry.0@;
        if f.shown(entry.0.as_str()) {
            let v = entry.1;
            r.insert(entry.0.clone(), v);
            assert(m.view()[k] == v);
        }
        assert forall|x: Seq<char>| #[trigger] key_before(e, i + 1, x) <==> key_before(e, i as int, x) || x == k by {
            if key_before(e, i + 1, x) {
                let j = choose|j: int| 0 <= j < i + 1 && (#[trigger] e[j]).0@ == x;
                if j < i {
                    assert(e[j].0@ == x);
                }
            }
            if x == k {
                assert(e[i as int].0@ == x);
            }
            if key_before(e, i as int, x) {
                let j = choose|j: int| 0 <= j < i && (#[trigger] e[j]).0@ == x;
                assert(e[j].0@ == x);
            }
        }
        assert(r.view() =~= Map::new(
            |x: Seq<char>| key_before(e, i + 1, x) && passes(f.show_patterns(), f.hide_patterns(), x),
            |x: Seq<char>| m.view()[x],
        ));
        i = i + 1;
    }
    assert(r.view() =~= Map::new(
        |k: Seq<char>| m.view().contains_key(k) && passes(f.show_patterns(), f.hide_patterns(), k),
        |k: Seq<char>| m.view()[k],
    ));
    r
}

/// The operator's `hide` list, or the plugin's defaults when they set none:
/// defaults that an explicit `hide` in the config replaces.
pub fn hide_or_default(user_hide: Vec<String>, defaults: &[&str]) -> (r: Vec<String>)
    ensures
        texts(r@) == if user_hide@.len() == 0 {
            defaults@.map_values(|d: &str| d@)
        } else {
            texts(user_hide@)
        },
{
    if user_hide.len() == 0 {
        let mut r: Vec<String> = Vec::new();
        let mut i: usize = 0;
        while i < defaults.len()
            invariant
                0 <= i <= defaults@.len(),
                texts(r@) == defaults@.map_values(|d: &str| d@).take(i as int),
            decreases defaults@.len() - i,
        {
            let ghost r0 = r@;
            let d: &str = defaults[i];
            r.push(d.to_owned());
            assert(texts(r@) =~= texts(r0).push(defaults@[i as int]@));
            assert(defaults@.map_values(|d: &str| d@).take(i + 1) =~= defaults@.map_values(|d: &str| d@).take(i as int).push(defaults@[i as int]@));
            i = i + 1;
        }
        assert(defaults@.map_values(|d: &str| d@).take(defaults@.len() as int) =~= defaults@.map_values(|d: &str| d@));
        r
    } else {
        user_hide
    }
}

} // verus!
