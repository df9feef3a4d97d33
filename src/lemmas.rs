//! Facts about the message model that hold across inputs.

use crate::message::{
    headers_of, index_from, is_blank, is_fold_char, lemma_index_from_unique, scan_header_lines, trim,
    trim_start, header_lines, fold_step, first_value, same_name, Field,
};
use vstd::prelude::*;

verus! {

/// A header written as `name: value` on a line of its own reads back as one
/// field holding `name` and `value`, both trimmed.
pub proof fn lemma_header_round_trip(name: Seq<char>, value: Seq<char>)
    requires
        forall|j: int| 0 <= j < name.len() ==> name[j] != ':' && name[j] != '\n',
        forall|j: int| 0 <= j < value.len() ==> value[j] != '\n',
        name.len() > 0 ==> !is_fold_char(name[0]),
    ensures
        headers_of(name + seq![':', ' '] + value) == seq![(trim(name), trim(value))],
{
    let t = name + seq![':', ' '] + value;
    let k = name.len() as int;
    lemma_index_from_unique(t, '\n', 0, t.len() as int);
    let l = t.subrange(0, t.len() as int);
    assert(l =~= t);
    assert(!is_blank(l));
    assert(header_lines(t, (t.len() + 1) as nat) == Seq::<Seq<char>>::empty());
    assert(header_lines(t, 0) =~= seq![t]);
    assert(seq![t].drop_last() =~= Seq::<Seq<char>>::empty());
    assert(scan_header_lines(seq![t]) == fold_step(scan_header_lines(Seq::empty()), t));
    if name.len() > 0 {
        assert(t[0] == name[0]);
    } else {
        assert(t[0] == ':');
    }
    lemma_index_from_unique(t, ':', 0, k);
    assert(t.subrange(0, k) =~= name);
    let rest = t.subrange(k + 1, t.len() as int);
    assert(rest.drop_first() =~= value);
    assert(trim_start(rest) == trim_start(value));
    assert(seq![(trim(name), trim(value))] =~= Seq::<Field>::empty().push((trim(name), trim(value))));
}

proof fn lemma_dropped_line_forgotten(before: Seq<Seq<char>>, m: Seq<char>, after: Seq<Seq<char>>)
    requires
        m.len() > 0 ==> !is_fold_char(m[0]),
        forall|j: int| 0 <= j < m.len() ==> m[j] != ':',
        after.len() > 0,
        after[0].len() > 0 ==> !is_fold_char(after[0][0]),
    ensures
        scan_header_lines(before + seq![m] + after) == scan_header_lines(before + after),
    decreases after.len(),
{
    let with_m = before + seq![m] + after;
    let without = before + after;
    if after.len() == 1 {
        assert(with_m.drop_last() =~= before + seq![m]);
        assert((before + seq![m]).drop_last() =~= before);
        assert(without.drop_last() =~= before);
        lemma_index_from_unique(m, ':', 0, m.len() as int);
        assert(with_m.last() == after[0]);
        assert(without.last() == after[0]);
        assert(scan_header_lines(before + seq![m]) == fold_step(scan_header_lines(before), m));
        assert(scan_header_lines(before + seq![m]).0 == scan_header_lines(before).0);
    } else {
        lemma_dropped_line_forgotten(before, m, after.drop_last());
        assert(with_m.drop_last() =~= before + seq![m] + after.drop_last());
        assert(without.drop_last() =~= before + after.drop_last());
        assert(with_m.last() == after.last());
        assert(without.last() == after.last());
    }
}

/// A header line without a colon is dropped: the fields read from the lines
/// around it are those read without it, where the line after it does not
/// continue it.
pub proof fn lemma_malformed_line_dropped(
    before: Seq<Seq<char>>,
    m: Seq<char>,
    after: Seq<Seq<char>>,
)
    requires
        m.len() > 0 ==> !is_fold_char(m[0]),
        forall|j: int| 0 <= j < m.len() ==> m[j] != ':',
        after.len() > 0 ==> (after[0].len() > 0 ==> !is_fold_char(after[0][0])),
    ensures
        scan_header_lines(before + seq![m] + after).0 == scan_header_lines(before + after).0,
{
    if after.len() == 0 {
        assert(before + seq![m] + after =~= before.push(m));
        assert(before.push(m).drop_last() =~= before);
        assert(before + after =~= before);
        lemma_index_from_unique(m, ':', 0, m.len() as int);
    } else {
        lemma_dropped_line_forgotten(before, m, after);
    }
}

/// Of several fields with a matching name, the first gives the value: where
/// field `i` matches `key` and none before it does, its value is the one
/// found, whatever follows it.
pub proof fn lemma_first_match_wins(hs: Seq<Field>, key: Seq<char>, i: int)
    requires
        0 <= i < hs.len(),
        same_name(hs[i].0, key),
        forall|j: int| 0 <= j < i ==> !same_name(#[trigger] hs[j].0, key),
    ensures
        first_value(hs, key) == Some(hs[i].1),
    decreases i,
{
    if i > 0 {
        assert(!same_name(hs[0].0, key));
        let rest = hs.drop_first();
        assert forall|j: int| 0 <= j < i - 1 implies !same_name(#[trigger] rest[j].0, key) by {
            assert(rest[j] == hs[j + 1]);
        }
        lemma_first_match_wins(rest, key, i - 1);
    }
}

} // verus!
