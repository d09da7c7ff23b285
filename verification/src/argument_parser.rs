//! The canonical selection structure: which resources a caller wants
//! synchronized, as handed to the resolver.

use vstd::prelude::*;
use crate::errors::DataStoreError;
use crate::kv::{find_key, kv_map, lemma_kv_map_dom, lemma_kv_map_index, lemma_kv_map_push,
    lemma_kv_map_update, unique_keys};

verus! {

/// What to synchronize: the whole catalog, or selected scopes.
#[derive(Debug)]
pub enum SyncResources {
    Everything,
    Select(SelectSyncOptions),
}

/// The granularity requested for one school: all of its data, or selected
/// terms only.
#[derive(Debug)]
pub enum CollectionType {
    AllSchoolData,
    SelectTermData(Vec<String>),
}

/// The spec-level shape of one school's selection: whole school, or a set
/// of terms.
pub enum CollectionView {
    All,
    SelectTerms(Set<Seq<char>>),
}

/// The view of one selection entry.
pub open spec fn collection_view(c: CollectionType) -> CollectionView {
    match c {
        CollectionType::AllSchoolData => CollectionView::All,
        CollectionType::SelectTermData(ts) => CollectionView::SelectTerms(
            ts@.map_values(|t: String| t@).to_set(),
        ),
    }
}

/// A selection of schools and terms, keyed by school.
#[derive(Debug)]
pub struct SelectSyncOptions {
    pub school_to_collection: Vec<(String, CollectionType)>,
}

impl SelectSyncOptions {
    /// The selection as a map from school to what is requested of it.
    pub open spec fn view_map(self) -> Map<Seq<char>, CollectionView> {
        kv_map(self.school_to_collection@).map_values(|c: CollectionType| collection_view(c))
    }

    /// School keys are unique, and so are the terms of each term selection.
    pub open spec fn wf(self) -> bool {
        &&& unique_keys(self.school_to_collection@)
        &&& forall|i: int|
            0 <= i < self.school_to_collection@.len() ==> (
            #[trigger] self.school_to_collection@[i].1 matches CollectionType::SelectTermData(ts)
                ==> unique_keys_str(ts@))
    }

    /// An empty selection.
    pub fn new() -> (r: SelectSyncOptions)
        ensures
            r.wf(),
            r.view_map() == Map::<Seq<char>, CollectionView>::empty(),
    {
        let r = SelectSyncOptions { school_to_collection: Vec::new() };
        proof {
            assert(r.view_map() =~= Map::<Seq<char>, CollectionView>::empty());
        }
        r
    }

    /// Requests a school's whole catalog. A school that is already selected,
    /// at either granularity, is left as it is.
    pub fn add_school(&mut self, school_id: &str) -> (added: bool)
        requires
            old(self).wf(),
        ensures
            final(self).wf(),
            added == !old(self).view_map().dom().contains(school_id@),
            added ==> final(self).view_map() == old(self).view_map().insert(
                school_id@,
                CollectionView::All,
            ),
            !added ==> final(self).view_map() == old(self).view_map(),
    {
        proof {
            lemma_kv_map_dom(self.school_to_collection@);
        }
        let key = school_id.to_owned();
        match find_key(&self.school_to_collection, &key) {
            Some(_) => false,
            None => {
                proof {
                    lemma_kv_map_push(
                        self.school_to_collection@,
                        (key, CollectionType::AllSchoolData),
                    );
                }
                let ghost before = *self;
                self.school_to_collection.push((key, CollectionType::AllSchoolData));
                proof {
                    assert(final(self).view_map() =~= before.view_map().insert(
                        school_id@,
                        CollectionView::All,
                    ));
                }
                true
            },
        }
    }

    /// Requests one term of a school. A school requested whole is narrowed
    /// to this one term; a term already present is left as it is.
    pub fn add_term(&mut self, school_id: &str, term_id: &str) -> (r: bool)
        requires
            old(self).wf(),
        ensures
            final(self).wf(),
            final(self).view_map() == old(self).view_map().insert(
                school_id@,
                CollectionView::SelectTerms(terms_after(old(self).view_map(), school_id@, term_id@)),
            ),
    {
        proof {
            lemma_kv_map_dom(self.school_to_collection@);
        }
        let key = school_id.to_owned();
        let term = term_id.to_owned();
        match find_key(&self.school_to_collection, &key) {
            None => {
                let mut ts: Vec<String> = Vec::new();
                ts.push(term);
                proof {
                    lemma_kv_map_push(
                        self.school_to_collection@,
                        (key, CollectionType::SelectTermData(ts)),
                    );
                }
                let ghost before = *self;
                self.school_to_collection.push((key, CollectionType::SelectTermData(ts)));
                proof {
                    lemma_singleton_set(ts@.map_values(|t: String| t@), term_id@);
                    assert(final(self).view_map() =~= before.view_map().insert(
                        school_id@,
                        CollectionView::SelectTerms(
                            terms_after(before.view_map(), school_id@, term_id@),
                        ),
                    ));
                }
                true
            },
            Some(i) => {
                let ghost before = *self;
                proof {
                    lemma_kv_map_index(self.school_to_collection@, i as int);
                }
                let (k, val) = self.school_to_collection.remove(i);
                match val {
                    CollectionType::AllSchoolData => {
                        let mut ts: Vec<String> = Vec::new();
                        ts.push(term);
                        let ghost entry = (k, CollectionType::SelectTermData(ts));
                        proof {
                            lemma_kv_map_update(before.school_to_collection@, i as int, entry);
                        }
                        self.school_to_collection.insert(i, (k, CollectionType::SelectTermData(ts)));
                        proof {
                            assert(self.school_to_collection@ =~= before.school_to_collection@
                                .update(i as int, entry));
                            lemma_singleton_set(ts@.map_values(|t: String| t@), term_id@);
                            assert(final(self).view_map() =~= before.view_map().insert(
                                school_id@,
                                CollectionView::SelectTerms(
                                    terms_after(before.view_map(), school_id@, term_id@),
                                ),
                            ));
                            lemma_wf_update(before, *self, i as int);
                        }
                        true
                    },
                    CollectionType::SelectTermData(mut ts) => {
                        let present = contains_string(&ts, &term);
                        if present {
                            self.school_to_collection.insert(
                                i,
                                (k, CollectionType::SelectTermData(ts)),
                            );
                            proof {
                                assert(self.school_to_collection@ =~= before.school_to_collection@);
                                assert(ts@.map_values(|t: String| t@).to_set() =~= terms_after(
                                    before.view_map(),
                                    school_id@,
                                    term_id@,
                                ));
                                assert(final(self).view_map() =~= before.view_map().insert(
                                    school_id@,
                                    CollectionView::SelectTerms(
                                        terms_after(before.view_map(), school_id@, term_id@),
                                    ),
                                ));
                            }
                            false
                        } else {
                            let ghost old_ts = ts;
                            ts.push(term);
                            let ghost entry = (k, CollectionType::SelectTermData(ts));
                            proof {
                                lemma_kv_map_update(before.school_to_collection@, i as int, entry);
                            }
                            self.school_to_collection.insert(
                                i,
                                (k, CollectionType::SelectTermData(ts)),
                            );
                            proof {
                                assert(self.school_to_collection@ =~= before.school_to_collection@
                                    .update(i as int, entry));
                                assert(ts@.map_values(|t: String| t@) =~= old_ts@.map_values(
                                    |t: String| t@,
                                ).push(term_id@));
                                lemma_push_set(old_ts@.map_values(|t: String| t@), term_id@);
                                assert(before.school_to_collection@[i as int].1 ==
                                    CollectionType::SelectTermData(old_ts));
                                assert(unique_keys_str(old_ts@));
                                assert forall|a: int| 0 <= a < old_ts@.len() implies old_ts@[a]@
                                    != term_id@ by {
                                    if old_ts@[a]@ == term_id@ {
                                        assert(old_ts@.map_values(|t: String| t@)[a] == term_id@);
                                        assert(old_ts@.map_values(|t: String| t@).contains(
                                            term_id@,
                                        ));
                                    }
                                }
                                assert(unique_keys_str(ts@));
                                assert(final(self).view_map() =~= before.view_map().insert(
                                    school_id@,
                                    CollectionView::SelectTerms(
                                        terms_after(before.view_map(), school_id@, term_id@),
                                    ),
                                ));
                                lemma_wf_update(before, *self, i as int);
                            }
                            true
                        }
                    },
                }
            },
        }
    }
}

/// The term set a school's selection holds after one more term is added:
/// the new term joins the existing term set, and replaces a whole-school
/// selection.
pub open spec fn terms_after(v: Map<Seq<char>, CollectionView>, s: Seq<char>, t: Seq<char>) -> Set<
    Seq<char>,
> {
    if v.dom().contains(s) {
        match v[s] {
            CollectionView::SelectTerms(ts) => ts.insert(t),
            CollectionView::All => Set::empty().insert(t),
        }
    } else {
        Set::empty().insert(t)
    }
}

/// Unique string views in a plain string list.
pub open spec fn unique_keys_str(s: Seq<String>) -> bool {
    forall|i: int, j: int| 0 <= i < j < s.len() ==> s[i]@ != s[j]@
}

/// The set of a one-element sequence.
proof fn lemma_singleton_set(m: Seq<Seq<char>>, t: Seq<char>)
    requires
        m.len() == 1,
        m[0] == t,
    ensures
        m.to_set() == Set::<Seq<char>>::empty().insert(t),
{
    assert forall|e: Seq<char>| m.to_set().contains(e) implies Set::<Seq<char>>::empty().insert(
        t,
    ).contains(e) by {
        let j = choose|j: int| 0 <= j < m.len() && m[j] == e;
        assert(m[0] == e);
    }
    assert(m.contains(t)) by {
        assert(m[0] == t);
    }
    assert(m.to_set() =~= Set::<Seq<char>>::empty().insert(t));
}

/// Appending one element inserts it into the sequence's set.
proof fn lemma_push_set(m: Seq<Seq<char>>, t: Seq<char>)
    ensures
        m.push(t).to_set() == m.to_set().insert(t),
{
    assert forall|e: Seq<char>| m.push(t).to_set().contains(e) implies m.to_set().insert(
        t,
    ).contains(e) by {
        let j = choose|j: int| 0 <= j < m.push(t).len() && m.push(t)[j] == e;
        if j < m.len() {
            assert(m[j] == e);
        }
    }
    assert forall|e: Seq<char>| m.to_set().insert(t).contains(e) implies m.push(t).to_set()
        .contains(e) by {
        if e == t {
            assert(m.push(t)[m.len() as int] == t);
        } else {
            let j = choose|j: int| 0 <= j < m.len() && m[j] == e;
            assert(m.push(t)[j] == e);
        }
    }
    assert(m.push(t).to_set() =~= m.to_set().insert(t));
}

/// Whether some entry of the list has the same text.
fn contains_string(s: &Vec<String>, k: &String) -> (r: bool)
    ensures
        r == s@.map_values(|t: String| t@).to_set().contains(k@),
{
    let n = s.len();
    let mut i: usize = 0;
    while i < n
        invariant
            0 <= i <= n,
            n == s@.len(),
            forall|j: int| 0 <= j < i ==> s@[j]@ != k@,
        decreases n - i,
    {
        if s[i] == *k {
            proof {
                assert(s@.map_values(|t: String| t@)[i as int] == k@);
                assert(s@.map_values(|t: String| t@).to_set().contains(k@));
            }
            return true;
        }
        i += 1;
    }
    proof {
        let m = s@.map_values(|t: String| t@);
        assert forall|e: Seq<char>| m.to_set().contains(e) implies e != k@ by {
            let j = choose|j: int| 0 <= j < m.len() && m[j] == e;
            assert(s@[j]@ != k@);
        }
    }
    false
}

/// Key uniqueness survives an update that keeps the key, and the inner term
/// lists of every other entry are untouched.
proof fn lemma_wf_update(before: SelectSyncOptions, after: SelectSyncOptions, i: int)
    requires
        before.wf(),
        0 <= i < before.school_to_collection@.len(),
        after.school_to_collection@ == before.school_to_collection@.update(
            i,
            after.school_to_collection@[i],
        ),
        after.school_to_collection@[i].0@ == before.school_to_collection@[i].0@,
        (after.school_to_collection@[i].1 matches CollectionType::SelectTermData(ts) ==>
            unique_keys_str(ts@)),
    ensures
        after.wf(),
{
    assert forall|j: int|
        0 <= j < after.school_to_collection@.len() implies (
    #[trigger] after.school_to_collection@[j].1 matches CollectionType::SelectTermData(ts)
        ==> unique_keys_str(ts@)) by {
        if j != i {
            assert(after.school_to_collection@[j] == before.school_to_collection@[j]);
        }
    }
}

/// The length of the prefix before the first occurrence of the separator,
/// or the whole length when the separator does not occur.
pub open spec fn first_break(s: Seq<char>, sep: char) -> int
    decreases s.len(),
{
    if s.len() == 0 {
        0
    } else if s[0] == sep {
        0
    } else {
        1 + first_break(s.drop_first(), sep)
    }
}

/// The first break lies in range, everything before it differs from the
/// separator, and the character at it (when in range) is the separator.
pub proof fn lemma_first_break(s: Seq<char>, sep: char)
    ensures
        0 <= first_break(s, sep) <= s.len(),
        forall|j: int| 0 <= j < first_break(s, sep) ==> s[j] != sep,
        first_break(s, sep) < s.len() ==> s[first_break(s, sep)] == sep,
    decreases s.len(),
{
    if s.len() > 0 && s[0] != sep {
        lemma_first_break(s.drop_first(), sep);
        assert forall|j: int| 0 <= j < first_break(s, sep) implies s[j] != sep by {
            if j > 0 {
                assert(s.drop_first()[j - 1] == s[j]);
                assert(s.drop_first()[j - 1] != sep);
            }
        }
    }
}

/// The first break is wherever the separator first stands.
pub proof fn lemma_first_break_at(s: Seq<char>, sep: char, k: int)
    requires
        0 <= k <= s.len(),
        forall|j: int| 0 <= j < k ==> s[j] != sep,
        k < s.len() ==> s[k] == sep,
    ensures
        first_break(s, sep) == k,
    decreases k,
{
    if s.len() > 0 {
        if k == 0 {
        } else {
            assert(s[0] != sep);
            let d = s.drop_first();
            assert(forall|j: int| 0 <= j < k - 1 ==> d[j] == s[j + 1]);
            assert(k - 1 < d.len() ==> d[k - 1] == s[k]);
            lemma_first_break_at(d, sep, k - 1);
        }
    }
}

/// The parts of a string between occurrences of a separator, in order; the
/// separators themselves are dropped and every part (possibly empty) is
/// kept.
pub open spec fn split_spec(s: Seq<char>, sep: char) -> Seq<Seq<char>>
    decreases s.len(),
    via split_spec_decreases
{
    let b = first_break(s, sep);
    if b >= s.len() {
        seq![s]
    } else {
        seq![s.take(b)] + split_spec(s.skip(b + 1), sep)
    }
}

#[via_fn]
proof fn split_spec_decreases(s: Seq<char>, sep: char) {
    lemma_first_break(s, sep);
}

/// Splitting a string whose head up to `start` is already consumed: the
/// remaining pieces are one sep-free chunk up to `i`, then whatever follows
/// the separator at `i`.
proof fn lemma_split_step(s: Seq<char>, sep: char, start: int, i: int)
    requires
        0 <= start <= i < s.len(),
        forall|j: int| start <= j < i ==> s[j] != sep,
        s[i] == sep,
    ensures
        split_spec(s.skip(start), sep) == seq![s.subrange(start, i)] + split_spec(
            s.skip(i + 1),
            sep,
        ),
{
    let u = s.skip(start);
    assert(forall|j: int| 0 <= j < i - start ==> u[j] == s[j + start]);
    lemma_first_break_at(u, sep, i - start);
    assert(u.take(i - start) =~= s.subrange(start, i));
    assert(u.skip(i - start + 1) =~= s.skip(i + 1));
}

/// Splitting a wholly sep-free tail yields that tail alone.
proof fn lemma_split_last(s: Seq<char>, sep: char, start: int)
    requires
        0 <= start <= s.len(),
        forall|j: int| start <= j < s.len() ==> s[j] != sep,
    ensures
        split_spec(s.skip(start), sep) == seq![s.subrange(start, s.len() as int)],
{
    let u = s.skip(start);
    assert(forall|j: int| 0 <= j < u.len() ==> u[j] == s[j + start]);
    lemma_first_break_at(u, sep, u.len() as int);
    assert(u =~= s.subrange(start, s.len() as int));
}

/// Splits an ASCII string on a separator character, exactly as `split_spec`
/// states.
#[verifier::loop_isolation(false)]
fn split_on(s: &str, sep: char) -> (parts: Vec<String>)
    requires
        s.is_ascii(),
    ensures
        parts@.len() > 0,
        parts@.map_values(|p: String| p@) == split_spec(s@, sep),
        forall|j: int| 0 <= j < parts@.len() ==> vstd::utf8::is_ascii_chars(#[trigger] parts@[j]@),
{
    let n = s.unicode_len();
    let mut parts: Vec<String> = Vec::new();
    let mut start: usize = 0;
    let mut i: usize = 0;
    proof {
        assert(s@.skip(0) =~= s@);
    }
    while i < n
        invariant
            0 <= start <= i <= n,
            n == s@.len(),
            split_spec(s@, sep) == parts@.map_values(|p: String| p@) + split_spec(
                s@.skip(start as int),
                sep,
            ),
            forall|j: int| start <= j < i ==> s@[j] != sep,
            forall|j: int| 0 <= j < parts@.len() ==> vstd::utf8::is_ascii_chars(
                #[trigger] parts@[j]@,
            ),
        decreases n - i,
    {
        if s.get_char(i) == sep {
            proof {
                lemma_split_step(s@, sep, start as int, i as int);
            }
            let part = s.substring_ascii(start, i);
            let ghost old_parts = parts@;
            parts.push(part.to_owned());
            proof {
                assert(parts@.map_values(|p: String| p@) =~= old_parts.map_values(
                    |p: String| p@,
                ).push(s@.subrange(start as int, i as int)));
                assert(old_parts.map_values(|p: String| p@).push(
                    s@.subrange(start as int, i as int),
                ) + split_spec(s@.skip(i + 1), sep) =~= old_parts.map_values(|p: String| p@) + (
                seq![s@.subrange(start as int, i as int)] + split_spec(s@.skip(i + 1), sep)));
            }
            start = i + 1;
        }
        i += 1;
    }
    proof {
        lemma_split_last(s@, sep, start as int);
    }
    let last = s.substring_ascii(start, n);
    let ghost old_parts = parts@;
    parts.push(last.to_owned());
    proof {
        assert(parts@.map_values(|p: String| p@) =~= old_parts.map_values(|p: String| p@).push(
            s@.subrange(start as int, n as int),
        ));
        assert(old_parts.map_values(|p: String| p@).push(s@.subrange(start as int, n as int))
            =~= old_parts.map_values(|p: String| p@) + seq![
            s@.subrange(start as int, n as int),
        ]);
    }
    parts
}

/// The string with its leading spaces removed.
pub open spec fn trim_front(s: Seq<char>) -> Seq<char>
    decreases s.len(),
{
    if s.len() > 0 && s[0] == ' ' {
        trim_front(s.drop_first())
    } else {
        s
    }
}

/// The string with its trailing spaces removed.
pub open spec fn trim_back(s: Seq<char>) -> Seq<char>
    decreases s.len(),
{
    if s.len() > 0 && s.last() == ' ' {
        trim_back(s.drop_last())
    } else {
        s
    }
}

/// The string with its leading and trailing spaces removed.
pub open spec fn trim_spec(s: Seq<char>) -> Seq<char> {
    trim_back(trim_front(s))
}

/// Removing the leading spaces keeps exactly the tail from the first
/// non-space position.
proof fn lemma_trim_front_at(s: Seq<char>, lo: int)
    requires
        0 <= lo <= s.len(),
        forall|j: int| 0 <= j < lo ==> s[j] == ' ',
        lo < s.len() ==> s[lo] != ' ',
    ensures
        trim_front(s) == s.skip(lo),
    decreases lo,
{
    if lo == 0 {
        assert(s.skip(0) =~= s);
    } else {
        assert(s[0] == ' ');
        let d = s.drop_first();
        assert(forall|j: int| 0 <= j < lo - 1 ==> d[j] == s[j + 1]);
        assert(lo - 1 < d.len() ==> d[lo - 1] == s[lo]);
        lemma_trim_front_at(d, lo - 1);
        assert(d.skip(lo - 1) =~= s.skip(lo));
    }
}

/// Removing the trailing spaces keeps exactly the head up to the last
/// non-space position.
proof fn lemma_trim_back_at(s: Seq<char>, hi: int)
    requires
        0 <= hi <= s.len(),
        forall|j: int| hi <= j < s.len() ==> s[j] == ' ',
        hi > 0 ==> s[hi - 1] != ' ',
    ensures
        trim_back(s) == s.take(hi),
    decreases s.len() - hi,
{
    if hi == s.len() {
        assert(s.take(hi) =~= s);
    } else {
        assert(s.last() == ' ');
        let d = s.drop_last();
        assert(forall|j: int| 0 <= j < d.len() ==> d[j] == s[j]);
        lemma_trim_back_at(d, hi);
        assert(d.take(hi) =~= s.take(hi));
    }
}

/// Strips leading and trailing spaces from an ASCII string, exactly as
/// `trim_spec` states.
#[verifier::loop_isolation(false)]
fn trim_spaces(s: &String) -> (r: String)
    requires
        vstd::utf8::is_ascii_chars(s@),
    ensures
        r@ == trim_spec(s@),
        vstd::utf8::is_ascii_chars(r@),
{
    let text = s.as_str();
    let n = text.unicode_len();
    let mut lo: usize = 0;
    while lo < n && text.get_char(lo) == ' '
        invariant
            0 <= lo <= n,
            n == text@.len(),
            forall|j: int| 0 <= j < lo ==> text@[j] == ' ',
        decreases n - lo,
    {
        lo += 1;
    }
    proof {
        lemma_trim_front_at(text@, lo as int);
    }
    let mut hi: usize = n;
    while hi > lo && text.get_char(hi - 1) == ' '
        invariant
            lo <= hi <= n,
            forall|j: int| hi <= j < n ==> text@[j] == ' ',
        decreases hi,
    {
        hi -= 1;
    }
    proof {
        let u = text@.skip(lo as int);
        assert(forall|j: int| 0 <= j < u.len() ==> u[j] == text@[j + lo]);
        lemma_trim_back_at(u, hi - lo);
        assert(u.take(hi - lo) =~= text@.subrange(lo as int, hi as int));
    }
    text.substring_ascii(lo, hi).to_owned()
}

/// Adding a whole-school selection: a school already selected, at either
/// granularity, is left as it is.
pub open spec fn add_school_spec(
    v: Map<Seq<char>, CollectionView>,
    s: Seq<char>,
) -> Map<Seq<char>, CollectionView> {
    if v.dom().contains(s) {
        v
    } else {
        v.insert(s, CollectionView::All)
    }
}

/// Folding the term fields of one selection piece, from `idx` on: each
/// trimmed term joins the school's term set (narrowing a whole-school
/// selection); an empty term is malformed.
pub open spec fn apply_terms(
    v: Map<Seq<char>, CollectionView>,
    school: Seq<char>,
    fields: Seq<Seq<char>>,
    idx: int,
) -> Option<Map<Seq<char>, CollectionView>>
    decreases fields.len() - idx,
{
    if idx >= fields.len() {
        Some(v)
    } else {
        let t = trim_spec(fields[idx]);
        if t.len() == 0 {
            None
        } else {
            apply_terms(
                v.insert(school, CollectionView::SelectTerms(terms_after(v, school, t))),
                school,
                fields,
                idx + 1,
            )
        }
    }
}

/// The effect of one selection piece: an empty piece is skipped (but a piece
/// with terms and no school is malformed); a school alone, or followed by
/// the literal `all`, selects the whole school; otherwise every following
/// field is a term.
pub open spec fn apply_piece(v: Map<Seq<char>, CollectionView>, piece: Seq<char>) -> Option<
    Map<Seq<char>, CollectionView>,
> {
    let fields = split_spec(piece, ',');
    let school = trim_spec(fields[0]);
    if school.len() == 0 {
        if fields.len() > 1 {
            None
        } else {
            Some(v)
        }
    } else if fields.len() == 1 {
        Some(add_school_spec(v, school))
    } else if trim_spec(fields[1]) == "all"@ {
        Some(add_school_spec(v, school))
    } else {
        apply_terms(v, school, fields, 1)
    }
}

/// Folding the pieces of a selection string, from `idx` on.
pub open spec fn apply_pieces(
    v: Map<Seq<char>, CollectionView>,
    pieces: Seq<Seq<char>>,
    idx: int,
) -> Option<Map<Seq<char>, CollectionView>>
    decreases pieces.len() - idx,
{
    if idx >= pieces.len() {
        Some(v)
    } else {
        match apply_piece(v, pieces[idx]) {
            Option::None => None,
            Option::Some(v2) => apply_pieces(v2, pieces, idx + 1),
        }
    }
}

/// The selection an ASCII selection string denotes, or nothing when the
/// string is malformed.
pub open spec fn parse_selection(input: Seq<char>) -> Option<Map<Seq<char>, CollectionView>> {
    if !vstd::utf8::is_ascii_chars(input) {
        Option::None
    } else {
        apply_pieces(Map::empty(), split_spec(input, ';'), 0)
    }
}

impl SelectSyncOptions {
    /// Parses a selection string: semicolon-separated pieces, each a school
    /// alone (or with the literal `all`) for a whole-school selection, or a
    /// school followed by comma-separated terms. Whitespace around every
    /// token is ignored and empty pieces are skipped; a missing school name,
    /// an empty term, or a non-ASCII string is rejected as invalid input.
    /// The parsed selection is exactly what `parse_selection` denotes.
    #[verifier::loop_isolation(false)]
    pub fn from_input(input: String) -> (r: Result<SelectSyncOptions, DataStoreError>)
        ensures
            r matches Ok(o) ==> o.wf() && parse_selection(input@) == Some(o.view_map()),
            r matches Err(e) ==> (e matches DataStoreError::InputValidation { .. })
                && parse_selection(input@) is None,
    {
        if !input.as_str().is_ascii() {
            return Err(selection_error("the selection string must be ASCII"));
        }
        let mut opts = SelectSyncOptions::new();
        let pieces = split_on(input.as_str(), ';');
        let ghost piecesv = split_spec(input@, ';');
        proof {
            assert(piecesv.len() == pieces@.len());
        }
        let np = pieces.len();
        let mut i: usize = 0;
        while i < np
            invariant
                0 <= i <= np,
                np == pieces@.len(),
                opts.wf(),
                pieces@.map_values(|p: String| p@) == piecesv,
                apply_pieces(Map::empty(), piecesv, 0) == apply_pieces(
                    opts.view_map(),
                    piecesv,
                    i as int,
                ),
                forall|j: int| 0 <= j < pieces@.len() ==> vstd::utf8::is_ascii_chars(
                    #[trigger] pieces@[j]@,
                ),
            decreases np - i,
        {
            proof {
                assert(pieces@.map_values(|p: String| p@)[i as int] == pieces@[i as int]@);
            }
            let fields = split_on(pieces[i].as_str(), ',');
            let ghost fieldsv = split_spec(piecesv[i as int], ',');
            let ghost entry_v = opts.view_map();
            proof {
                assert(fields@.map_values(|p: String| p@) == fieldsv);
                assert(fields@.map_values(|p: String| p@)[0] == fields@[0]@);
            }
            let nf = fields.len();
            let school = trim_spaces(&fields[0]);
            if school.as_str().unicode_len() == 0 {
                if nf > 1 {
                    proof {
                        assert(apply_piece(entry_v, piecesv[i as int]) is None);
                        assert(apply_pieces(entry_v, piecesv, i as int) is None);
                        assert(parse_selection(input@) is None);
                    }
                    return Err(selection_error("a selection piece names no school"));
                }
                // an empty piece (for instance a trailing separator) is skipped
                proof {
                    assert(apply_piece(entry_v, piecesv[i as int]) == Some(entry_v));
                }
            } else if nf == 1 {
                let _ = opts.add_school(school.as_str());
                proof {
                    assert(opts.view_map() == add_school_spec(entry_v, trim_spec(fields@[0]@)));
                    assert(apply_piece(entry_v, piecesv[i as int]) == Some(opts.view_map()));
                }
            } else {
                let second = trim_spaces(&fields[1]);
                proof {
                    assert(fields@.map_values(|p: String| p@)[1] == fields@[1]@);
                }
                if second == String::from_str("all") {
                    let _ = opts.add_school(school.as_str());
                    proof {
                        assert(trim_spec(fieldsv[1]) == "all"@);
                        assert(opts.view_map() == add_school_spec(
                            entry_v,
                            trim_spec(fields@[0]@),
                        ));
                        assert(apply_piece(entry_v, piecesv[i as int]) == Some(opts.view_map()));
                    }
                } else {
                    let mut f: usize = 1;
                    while f < nf
                        invariant
                            1 <= f <= nf,
                            nf == fields@.len(),
                            opts.wf(),
                            fields@.map_values(|p: String| p@) == fieldsv,
                            school@ == trim_spec(fieldsv[0]),
                            school@.len() > 0,
                            apply_terms(entry_v, school@, fieldsv, 1) == apply_terms(
                                opts.view_map(),
                                school@,
                                fieldsv,
                                f as int,
                            ),
                            forall|j: int| 0 <= j < fields@.len() ==> vstd::utf8::is_ascii_chars(
                                #[trigger] fields@[j]@,
                            ),
                        decreases nf - f,
                    {
                        proof {
                            assert(fields@.map_values(|p: String| p@)[f as int]
                                == fields@[f as int]@);
                        }
                        let term = trim_spaces(&fields[f]);
                        if term.as_str().unicode_len() == 0 {
                            proof {
                                assert(apply_terms(opts.view_map(), school@, fieldsv, f as int)
                                    is None);
                                assert(apply_terms(entry_v, school@, fieldsv, 1) is None);
                                assert(trim_spec(fieldsv[1]) != "all"@);
                                assert(apply_piece(entry_v, piecesv[i as int]) is None);
                                assert(apply_pieces(entry_v, piecesv, i as int) is None);
                                assert(parse_selection(input@) is None);
                            }
                            return Err(selection_error("a term selection is empty"));
                        }
                        let ghost before_v = opts.view_map();
                        let _ = opts.add_term(school.as_str(), term.as_str());
                        proof {
                            assert(opts.view_map() == before_v.insert(
                                school@,
                                CollectionView::SelectTerms(
                                    terms_after(before_v, school@, term@),
                                ),
                            ));
                        }
                        f += 1;
                    }
                    proof {
                        assert(apply_terms(opts.view_map(), school@, fieldsv, nf as int)
                            == Some(opts.view_map()));
                        assert(trim_spec(fieldsv[1]) != "all"@);
                        assert(apply_piece(entry_v, piecesv[i as int]) == Some(opts.view_map()));
                    }
                }
            }
            i += 1;
        }
        proof {
            assert(apply_pieces(opts.view_map(), piecesv, np as int) == Some(opts.view_map()));
        }
        Ok(opts)
    }
}

/// A malformed selection string.
fn selection_error(message: &str) -> (r: DataStoreError)
    ensures
        r matches DataStoreError::InputValidation { .. },
{
    DataStoreError::InputValidation {
        message: String::from_str(message),
        invalid_values: Vec::new(),
        record: None,
    }
}

} // verus!
