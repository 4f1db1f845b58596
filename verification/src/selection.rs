use crate::text::{
    lemma_lex_lt_asymmetric, lemma_lex_lt_irreflexive, lemma_lex_lt_total,
    lemma_lex_lt_transitive, lex_lt,
};
use vstd::arithmetic::div_mod::{
    lemma_fundamental_div_mod_converse, lemma_mod_add_multiples_vanish, lemma_small_mod,
};
use vstd::prelude::*;

verus! {

/// What one optional property of a task holds, as far as the display cares.
pub enum Field {
    /// The task does not have the property.
    Absent,
    /// The property is there, but its value is not plain text.
    NotText,
    /// The property is there and holds this text.
    Text(Seq<char>),
}

/// One task: its name and its two optional texts.
pub struct Entry {
    pub name: Seq<char>,
    pub desc: Field,
    pub summary: Field,
}

/// The selectable list: the entries in the order in which they are shown, and
/// the cursor, which is unset until an entry has been selected.
pub struct Selection {
    pub entries: Seq<Entry>,
    pub cursor: Option<nat>,
}

/// The names grow strictly from each entry to the next, so no name occurs
/// twice.
pub open spec fn ascending(entries: Seq<Entry>) -> bool {
    forall|i: int, j: int|
        0 <= i < j < entries.len() ==> lex_lt(#[trigger] entries[i].name, #[trigger] entries[j].name)
}

/// Holds of the entries whose name comes before `name`.
pub open spec fn before(name: Seq<char>) -> spec_fn(Entry) -> bool {
    |x: Entry| lex_lt(x.name, name)
}

/// Holds of the entries whose name comes after `name`.
pub open spec fn after(name: Seq<char>) -> spec_fn(Entry) -> bool {
    |x: Entry| lex_lt(name, x.name)
}

/// The entries with `e` put in its place: those with a smaller name, then
/// `e`, then those with a greater name. An entry of the same name is dropped.
pub open spec fn put(entries: Seq<Entry>, e: Entry) -> Seq<Entry> {
    entries.filter(before(e.name)) + seq![e] + entries.filter(after(e.name))
}

impl Selection {
    /// No entries, nothing selected.
    pub open spec fn empty() -> Selection {
        Selection { entries: Seq::empty(), cursor: None }
    }

    /// The number of entries.
    pub open spec fn len(self) -> nat {
        self.entries.len()
    }

    /// The entries are in ascending order of their names and the cursor, if
    /// set, points at one of them.
    pub open spec fn wf(self) -> bool {
        &&& ascending(self.entries)
        &&& self.cursor matches Some(i) ==> i < self.len()
    }

    /// The entry under the cursor.
    pub open spec fn current(self) -> Option<Entry> {
        match self.cursor {
            Some(i) if i < self.len() => Some(self.entries[i as int]),
            _ => None,
        }
    }

    /// The list with `e` added. The cursor keeps its position.
    pub open spec fn add(self, e: Entry) -> Selection {
        Selection { entries: put(self.entries, e), cursor: self.cursor }
    }

    /// The list with the cursor on the first entry.
    pub open spec fn select_first(self) -> Selection {
        Selection { entries: self.entries, cursor: Some(0) }
    }

    /// One step forward on the ring of positions; an unset cursor goes to the
    /// first entry.
    pub open spec fn select_next(self) -> Selection {
        Selection {
            entries: self.entries,
            cursor: Some(
                match self.cursor {
                    Some(i) => ((i as int + 1) % (self.len() as int)) as nat,
                    None => 0,
                },
            ),
        }
    }

    /// One step backward on the ring of positions; an unset cursor goes to
    /// the first entry.
    pub open spec fn select_prev(self) -> Selection {
        Selection {
            entries: self.entries,
            cursor: Some(
                match self.cursor {
                    Some(i) => ((i as int + self.len() as int - 1) % (self.len() as int)) as nat,
                    None => 0,
                },
            ),
        }
    }

    /// `n` steps forward.
    pub open spec fn select_next_times(self, n: nat) -> Selection
        decreases n,
    {
        if n == 0 {
            self
        } else {
            self.select_next().select_next_times((n - 1) as nat)
        }
    }
}

proof fn lemma_filter_keeps_all(s: Seq<Entry>, p: spec_fn(Entry) -> bool)
    requires
        forall|i: int| 0 <= i < s.len() ==> p(#[trigger] s[i]),
    ensures
        s.filter(p) == s,
    decreases s.len(),
{
    reveal(Seq::filter);
    if s.len() > 0 {
        lemma_filter_keeps_all(s.drop_last(), p);
        assert(s =~= s.drop_last().push(s.last()));
    }
}

proof fn lemma_filter_keeps_none(s: Seq<Entry>, p: spec_fn(Entry) -> bool)
    requires
        forall|i: int| 0 <= i < s.len() ==> !p(#[trigger] s[i]),
    ensures
        s.filter(p) == Seq::<Entry>::empty(),
    decreases s.len(),
{
    reveal(Seq::filter);
    if s.len() > 0 {
        lemma_filter_keeps_none(s.drop_last(), p);
    }
}

/// Entries that all come before `e`, then `e`, then entries that all come
/// after it, are ascending if both parts are.
proof fn lemma_ascending_around(low: Seq<Entry>, e: Entry, high: Seq<Entry>)
    requires
        ascending(low),
        ascending(high),
        forall|i: int| 0 <= i < low.len() ==> lex_lt(#[trigger] low[i].name, e.name),
        forall|i: int| 0 <= i < high.len() ==> lex_lt(e.name, #[trigger] high[i].name),
    ensures
        ascending(low + seq![e] + high),
{
    let out = low + seq![e] + high;
    let k = low.len() as int;
    assert forall|i: int, j: int| 0 <= i < j < out.len() implies lex_lt(
        #[trigger] out[i].name,
        #[trigger] out[j].name,
    ) by {
        if j < k {
            assert(out[i] == low[i] && out[j] == low[j]);
        } else if j == k {
            assert(out[i] == low[i] && out[j] == e);
        } else if i < k {
            assert(out[i] == low[i] && out[j] == high[j - k - 1]);
            lemma_lex_lt_transitive(low[i].name, e.name, high[j - k - 1].name);
        } else if i == k {
            assert(out[i] == e && out[j] == high[j - k - 1]);
        } else {
            assert(out[i] == high[i - k - 1] && out[j] == high[j - k - 1]);
        }
    }
}

/// Among ascending entries, those from the first that does not come before
/// `name` onward do not come before it either, and all of them but one of
/// that very name come after it.
proof fn lemma_from_position(entries: Seq<Entry>, name: Seq<char>, k: int, j: int)
    requires
        ascending(entries),
        0 <= k <= j < entries.len(),
        !lex_lt(entries[k].name, name),
    ensures
        !lex_lt(entries[j].name, name),
        entries[j].name != name ==> lex_lt(name, entries[j].name),
        j > k ==> lex_lt(name, entries[j].name),
{
    lemma_lex_lt_total(entries[k].name, name);
    lemma_lex_lt_total(entries[j].name, name);
    if j > k {
        assert(lex_lt(entries[k].name, entries[j].name));
        if lex_lt(entries[j].name, name) {
            lemma_lex_lt_transitive(entries[k].name, entries[j].name, name);
        }
    }
}

/// Where `e` goes among ascending entries: `k` is the first position whose
/// name does not come before that of `e`. An entry of the same name, which
/// can only stand at `k`, is replaced; otherwise `e` is inserted at `k`. The
/// result is ascending again.
pub proof fn lemma_put_at(entries: Seq<Entry>, e: Entry, k: int)
    requires
        ascending(entries),
        0 <= k <= entries.len(),
        forall|i: int| 0 <= i < k ==> lex_lt(#[trigger] entries[i].name, e.name),
        k < entries.len() ==> !lex_lt(entries[k].name, e.name),
    ensures
        k < entries.len() && entries[k].name == e.name ==> put(entries, e) == entries.update(k, e),
        !(k < entries.len() && entries[k].name == e.name) ==> put(entries, e) == entries.insert(
            k,
            e,
        ),
        ascending(put(entries, e)),
{
    let same = k < entries.len() && entries[k].name == e.name;
    let m = if same {
        k + 1
    } else {
        k
    };
    let low = entries.take(k);
    let high = entries.skip(k);
    let skipped = entries.take(m);
    let rest = entries.skip(m);

    assert(entries.filter(before(e.name)) == low) by {
        assert forall|i: int| 0 <= i < high.len() implies !before(e.name)(#[trigger] high[i]) by {
            lemma_from_position(entries, e.name, k, k + i);
        }
        assert(entries =~= low + high);
        Seq::filter_distributes_over_add(low, high, before(e.name));
        lemma_filter_keeps_all(low, before(e.name));
        lemma_filter_keeps_none(high, before(e.name));
        assert(low + Seq::<Entry>::empty() =~= low);
    }
    assert(entries.filter(after(e.name)) == rest) by {
        assert forall|i: int| 0 <= i < skipped.len() implies !after(e.name)(
            #[trigger] skipped[i],
        ) by {
            if i < k {
                assert(lex_lt(entries[i].name, e.name));
                lemma_lex_lt_asymmetric(entries[i].name, e.name);
            } else {
                lemma_lex_lt_irreflexive(e.name);
            }
        }
        assert forall|i: int| 0 <= i < rest.len() implies after(e.name)(#[trigger] rest[i]) by {
            lemma_from_position(entries, e.name, k, m + i);
        }
        assert(entries =~= skipped + rest);
        Seq::filter_distributes_over_add(skipped, rest, after(e.name));
        lemma_filter_keeps_none(skipped, after(e.name));
        lemma_filter_keeps_all(rest, after(e.name));
        assert(Seq::<Entry>::empty() + rest =~= rest);
    }
    if same {
        assert(low + seq![e] + rest =~= entries.update(k, e));
    } else {
        assert(low + seq![e] + rest =~= entries.insert(k, e));
    }
    assert(ascending(low + seq![e] + rest)) by {
        assert forall|i: int| 0 <= i < rest.len() implies lex_lt(
            e.name,
            #[trigger] rest[i].name,
        ) by {
            lemma_from_position(entries, e.name, k, m + i);
        }
        assert(ascending(low)) by {
            assert forall|i: int, j: int| 0 <= i < j < low.len() implies lex_lt(
                #[trigger] low[i].name,
                #[trigger] low[j].name,
            ) by {
                assert(low[i] == entries[i] && low[j] == entries[j]);
            }
        }
        assert(ascending(rest)) by {
            assert forall|i: int, j: int| 0 <= i < j < rest.len() implies lex_lt(
                #[trigger] rest[i].name,
                #[trigger] rest[j].name,
            ) by {
                assert(rest[i] == entries[m + i] && rest[j] == entries[m + j]);
            }
        }
        lemma_ascending_around(low, e, rest);
    }
}

/// What `put` keeps: `e` itself, and of the entries that were there those of
/// another name.
pub proof fn lemma_put_contains(entries: Seq<Entry>, e: Entry, x: Entry)
    ensures
        put(entries, e).contains(x) <==> (x == e || (entries.contains(x) && x.name != e.name)),
{
    let low = entries.filter(before(e.name));
    let high = entries.filter(after(e.name));
    let out = put(entries, e);
    assert(out[low.len() as int] == e);
    if entries.contains(x) && x.name != e.name {
        let i = choose|i: int| 0 <= i < entries.len() && entries[i] == x;
        lemma_lex_lt_total(x.name, e.name);
        if lex_lt(x.name, e.name) {
            entries.lemma_filter_contains(before(e.name), i);
            let k = choose|k: int| 0 <= k < low.len() && low[k] == x;
            assert(out[k] == x);
        } else {
            entries.lemma_filter_contains(after(e.name), i);
            let k = choose|k: int| 0 <= k < high.len() && high[k] == x;
            assert(out[low.len() + 1 + k] == x);
        }
    }
    if out.contains(x) && x != e {
        let k = choose|k: int| 0 <= k < out.len() && out[k] == x;
        if k < low.len() {
            assert(low[k] == x);
            entries.lemma_filter_pred(before(e.name), k);
            entries.lemma_filter_contains_rev(before(e.name), x);
            lemma_lex_lt_irreflexive(e.name);
        } else {
            let h = k - low.len() - 1;
            assert(high[h] == x);
            entries.lemma_filter_pred(after(e.name), h);
            entries.lemma_filter_contains_rev(after(e.name), x);
            lemma_lex_lt_irreflexive(e.name);
        }
    }
}

/// In ascending entries the first is none of the others.
proof fn lemma_rest_contains(a: Seq<Entry>, x: Entry)
    requires
        ascending(a),
        a.len() >= 1,
    ensures
        a.drop_first().contains(x) <==> (a.contains(x) && x != a[0]),
{
    let rest = a.drop_first();
    if rest.contains(x) {
        let i = choose|i: int| 0 <= i < rest.len() && rest[i] == x;
        assert(a[i + 1] == x);
        assert(lex_lt(a[0].name, a[i + 1].name));
        lemma_lex_lt_irreflexive(a[0].name);
    }
    if a.contains(x) && x != a[0] {
        let i = choose|i: int| 0 <= i < a.len() && a[i] == x;
        assert(rest[i - 1] == x);
    }
}

/// Ascending entries are known by what they contain: two ascending
/// sequences with the same entries are the same sequence.
pub proof fn lemma_ascending_unique(a: Seq<Entry>, b: Seq<Entry>)
    requires
        ascending(a),
        ascending(b),
        forall|x: Entry| a.contains(x) <==> b.contains(x),
    ensures
        a == b,
    decreases a.len(),
{
    if a.len() == 0 {
        if b.len() > 0 {
            assert(b.contains(b[0]));
        }
        assert(a =~= b);
    } else {
        assert(a.contains(a[0]));
        let j = choose|j: int| 0 <= j < b.len() && b[j] == a[0];
        assert(b.contains(b[0]));
        let i = choose|i: int| 0 <= i < a.len() && a[i] == b[0];
        if j > 0 {
            assert(lex_lt(b[0].name, b[j].name));
            if i > 0 {
                assert(lex_lt(a[0].name, a[i].name));
                lemma_lex_lt_asymmetric(a[0].name, a[i].name);
            } else {
                lemma_lex_lt_irreflexive(a[0].name);
            }
        }
        assert(a[0] == b[0]);
        let ra = a.drop_first();
        let rb = b.drop_first();
        assert(ascending(ra)) by {
            assert forall|i: int, j: int| 0 <= i < j < ra.len() implies lex_lt(
                #[trigger] ra[i].name,
                #[trigger] ra[j].name,
            ) by {
                assert(ra[i] == a[i + 1] && ra[j] == a[j + 1]);
            }
        }
        assert(ascending(rb)) by {
            assert forall|i: int, j: int| 0 <= i < j < rb.len() implies lex_lt(
                #[trigger] rb[i].name,
                #[trigger] rb[j].name,
            ) by {
                assert(rb[i] == b[i + 1] && rb[j] == b[j + 1]);
            }
        }
        assert forall|x: Entry| ra.contains(x) <==> rb.contains(x) by {
            lemma_rest_contains(a, x);
            lemma_rest_contains(b, x);
        }
        lemma_ascending_unique(ra, rb);
        assert(a =~= seq![a[0]] + ra);
        assert(b =~= seq![b[0]] + rb);
    }
}

/// Adding an entry keeps a list well formed.
pub proof fn lemma_add_wf(s: Selection, e: Entry)
    requires
        s.wf(),
    ensures
        s.add(e).wf(),
        s.len() <= s.add(e).len() <= s.len() + 1,
{
    let k = choose|k: int|
        0 <= k <= s.entries.len() && (forall|i: int|
            0 <= i < k ==> lex_lt(#[trigger] s.entries[i].name, e.name)) && (k < s.entries.len()
            ==> !lex_lt(s.entries[k].name, e.name));
    lemma_position_exists(s.entries, e.name, 0);
    lemma_put_at(s.entries, e, k);
}

proof fn lemma_position_exists(entries: Seq<Entry>, name: Seq<char>, from: int)
    requires
        0 <= from <= entries.len(),
        forall|i: int| 0 <= i < from ==> lex_lt(#[trigger] entries[i].name, name),
    ensures
        exists|k: int|
            0 <= k <= entries.len() && (forall|i: int|
                0 <= i < k ==> lex_lt(#[trigger] entries[i].name, name)) && (k < entries.len()
                ==> !lex_lt(entries[k].name, name)),
    decreases entries.len() - from,
{
    if from < entries.len() && lex_lt(entries[from].name, name) {
        lemma_position_exists(entries, name, from + 1);
    }
}

/// Wherever the cursor was, selecting the first entry of a list with entries
/// puts it on position 0 and changes nothing else.
pub proof fn lemma_select_first(s: Selection)
    requires
        s.wf(),
        s.len() >= 1,
    ensures
        s.select_first().cursor == Some(0nat),
        s.select_first().entries == s.entries,
        s.select_first().wf(),
{
}

/// On a list with entries, a step forward from a set cursor moves to the next
/// position, and from the last position to the first.
pub proof fn lemma_select_next_cases(s: Selection)
    requires
        s.wf(),
        s.len() >= 1,
    ensures
        s.select_next().wf(),
        s.cursor matches Some(i) ==> s.select_next().cursor == Some(
            if i + 1 == s.len() {
                0nat
            } else {
                i + 1
            },
        ),
{
    if let Some(i) = s.cursor {
        if i + 1 == s.len() {
            lemma_fundamental_div_mod_converse(i as int + 1, s.len() as int, 1, 0);
        } else {
            lemma_small_mod(i + 1, s.len());
        }
    }
}

/// On a list with entries, a step backward from a set cursor moves to the
/// position before, and from the first position to the last.
pub proof fn lemma_select_prev_cases(s: Selection)
    requires
        s.wf(),
        s.len() >= 1,
    ensures
        s.select_prev().wf(),
        s.cursor matches Some(i) ==> s.select_prev().cursor == Some(
            if i == 0 {
                (s.len() - 1) as nat
            } else {
                (i - 1) as nat
            },
        ),
{
    if let Some(i) = s.cursor {
        if i == 0 {
            lemma_small_mod((s.len() - 1) as nat, s.len());
        } else {
            lemma_fundamental_div_mod_converse(
                i as int + s.len() as int - 1,
                s.len() as int,
                1,
                i as int - 1,
            );
        }
    }
}

/// A step forward and then a step backward, or the other way round, leave a
/// set cursor where it was.
pub proof fn lemma_next_prev_inverse(s: Selection)
    requires
        s.wf(),
        s.len() >= 1,
        s.cursor is Some,
    ensures
        s.select_next().select_prev() == s,
        s.select_prev().select_next() == s,
{
    lemma_select_next_cases(s);
    lemma_select_prev_cases(s);
    lemma_select_next_cases(s.select_prev());
    lemma_select_prev_cases(s.select_next());
}

/// `n` steps forward from position `i` end at `(i + n) % len`.
pub proof fn lemma_select_next_times(s: Selection, n: nat)
    requires
        s.wf(),
        s.len() >= 1,
        s.cursor is Some,
    ensures
        s.select_next_times(n).entries == s.entries,
        s.select_next_times(n).cursor == Some(
            ((s.cursor->0 as int + n as int) % (s.len() as int)) as nat,
        ),
    decreases n,
{
    let i = s.cursor->0 as int;
    let len = s.len() as int;
    if n == 0 {
        lemma_small_mod(s.cursor->0, s.len());
    } else {
        lemma_select_next_cases(s);
        lemma_select_next_times(s.select_next(), (n - 1) as nat);
        if i + 1 == len {
            lemma_mod_add_multiples_vanish(n - 1, len);
        }
    }
}

/// As many steps forward as there are entries bring a set cursor back to
/// where it started.
pub proof fn lemma_full_cycle(s: Selection)
    requires
        s.wf(),
        s.len() >= 1,
        s.cursor is Some,
    ensures
        s.select_next_times(s.len()) == s,
{
    lemma_select_next_times(s, s.len());
    lemma_mod_add_multiples_vanish(s.cursor->0 as int, s.len() as int);
    lemma_small_mod(s.cursor->0, s.len());
}

/// At the ends the cursor wraps around: forward from the last position to the
/// first, backward from the first to the last.
pub proof fn lemma_wrap_around(s: Selection)
    requires
        s.wf(),
        s.len() >= 1,
    ensures
        s.cursor == Some((s.len() - 1) as nat) ==> s.select_next().cursor == Some(0nat),
        s.cursor == Some(0nat) ==> s.select_prev().cursor == Some((s.len() - 1) as nat),
{
    lemma_select_next_cases(s);
    lemma_select_prev_cases(s);
}

/// With the cursor unset, a step in either direction selects the first entry.
pub proof fn lemma_unset_cursor(s: Selection)
    requires
        s.cursor is None,
    ensures
        s.select_next() == s.select_first(),
        s.select_prev() == s.select_first(),
        s.select_next().cursor == Some(0nat),
        s.select_prev().cursor == Some(0nat),
{
}

} // verus!
