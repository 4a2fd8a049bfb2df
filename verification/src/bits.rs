//! The bitstream model: joining parts with separators made of `'0'`
//! characters, splitting on such separators, and the facts that make the
//! two operations inverse to each other.
//!
//! Encoding joins: symbols joined by one `'0'`, character units joined by
//! `"000"`, and the seven-zero inter-word separator arises where a word
//! gap's own `"0"` sits between two `"000"` separators.  Decoding splits on
//! exactly those separator strings.

use crate::morse_unit::MorseUnit;
use vstd::prelude::*;

verus! {

/// A run of `k` zero characters.
pub open spec fn zeros(k: nat) -> Seq<char> {
    Seq::new(k, |i: int| '0')
}

/// The parts joined in order, with `sep` between consecutive parts.
pub open spec fn join_with<A>(parts: Seq<Seq<A>>, sep: Seq<A>) -> Seq<A>
    decreases parts.len(),
{
    if parts.len() == 0 {
        Seq::empty()
    } else if parts.len() == 1 {
        parts[0]
    } else {
        parts[0] + sep + join_with(parts.drop_first(), sep)
    }
}

/// `p` occurs in `s` starting at position `i`.
pub open spec fn occurs_at(s: Seq<char>, p: Seq<char>, i: int) -> bool {
    0 <= i && i + p.len() <= s.len() && s.subrange(i, i + p.len() as int) == p
}

/// Exact string splitting on the separator `p`, scanning left to right and
/// consuming non-overlapping occurrences.  Splitting never yields fewer
/// than one segment, and empty segments are kept.
pub open spec fn split_on(s: Seq<char>, p: Seq<char>) -> Seq<Seq<char>>
    decreases s.len(),
{
    if p.len() == 0 || s.len() < p.len() {
        seq![s]
    } else if s.take(p.len() as int) == p {
        seq![Seq::<char>::empty()] + split_on(s.skip(p.len() as int), p)
    } else {
        let r = split_on(s.skip(1), p);
        r.update(0, seq![s[0]] + r[0])
    }
}

pub proof fn lemma_split_len(s: Seq<char>, p: Seq<char>)
    ensures
        split_on(s, p).len() >= 1,
    decreases s.len(),
{
    if p.len() == 0 || s.len() < p.len() {
    } else if s.take(p.len() as int) == p {
        lemma_split_len(s.skip(p.len() as int), p);
    } else {
        lemma_split_len(s.skip(1), p);
    }
}

/// Occurrences in a suffix are occurrences in the whole, shifted.
pub proof fn lemma_occurs_shift(s: Seq<char>, p: Seq<char>, k: int, i: int)
    requires
        0 <= k <= s.len(),
        0 <= i,
    ensures
        occurs_at(s, p, k + i) == occurs_at(s.skip(k), p, i),
{
    if i + p.len() <= s.len() - k {
        assert(s.skip(k).subrange(i, i + p.len() as int) =~= s.subrange(
            k + i,
            k + i + p.len() as int,
        ));
    }
}

/// A string without any occurrence of the separator splits into itself.
pub proof fn lemma_split_no_occurrence(s: Seq<char>, p: Seq<char>)
    requires
        p.len() > 0,
        forall|i: int| !occurs_at(s, p, i),
    ensures
        split_on(s, p) == seq![s],
    decreases s.len(),
{
    if s.len() < p.len() {
    } else {
        assert(s.take(p.len() as int) =~= s.subrange(0, p.len() as int));
        assert(!occurs_at(s, p, 0));
        assert(forall|i: int| 0 <= i ==> !occurs_at(s.skip(1), p, i)) by {
            assert forall|i: int| 0 <= i implies !occurs_at(s.skip(1), p, i) by {
                lemma_occurs_shift(s, p, 1, i);
            }
        }
        lemma_split_no_occurrence(s.skip(1), p);
        let r = split_on(s.skip(1), p);
        assert(r == seq![s.skip(1)]);
        assert(seq![s[0]] + s.skip(1) =~= s);
        assert(r.update(0, seq![s[0]] + r[0]) =~= seq![s]);
    }
}

/// Splitting a string that begins with the separator yields an empty first
/// segment, then the split of the remainder.
pub proof fn lemma_split_at_sep(c: Seq<char>, p: Seq<char>)
    requires
        p.len() > 0,
    ensures
        split_on(p + c, p) == seq![Seq::<char>::empty()] + split_on(c, p),
{
    let s = p + c;
    assert(s.take(p.len() as int) =~= p);
    assert(s.skip(p.len() as int) =~= c);
}

/// A prefix free of occurrences of the separator attaches to the first
/// segment of the remainder's split.
pub proof fn lemma_split_clean_prefix(a: Seq<char>, b: Seq<char>, p: Seq<char>)
    requires
        p.len() > 0,
        forall|i: int| 0 <= i < a.len() ==> !occurs_at(a + b, p, i),
    ensures
        split_on(a + b, p) == split_on(b, p).update(0, a + split_on(b, p)[0]),
    decreases a.len(),
{
    let s = a + b;
    let r = split_on(b, p);
    lemma_split_len(b, p);
    if a.len() == 0 {
        assert(s =~= b);
        assert(a + r[0] =~= r[0]);
        assert(r.update(0, a + r[0]) =~= r);
    } else if s.len() < p.len() {
        assert(b.len() < p.len());
        assert(r == seq![b]);
        assert(r.update(0, a + r[0]) =~= seq![s]);
    } else {
        assert(s.take(p.len() as int) =~= s.subrange(0, p.len() as int));
        assert(!occurs_at(s, p, 0));
        assert(s.take(p.len() as int) != p);
        let a1 = a.drop_first();
        assert(s.skip(1) =~= a1 + b);
        assert(forall|i: int| 0 <= i < a1.len() ==> !occurs_at(a1 + b, p, i)) by {
            assert forall|i: int| 0 <= i < a1.len() implies !occurs_at(a1 + b, p, i) by {
                lemma_occurs_shift(s, p, 1, i);
            }
        }
        lemma_split_clean_prefix(a1, b, p);
        let r1 = split_on(a1 + b, p);
        assert(r1 == r.update(0, a1 + r[0]));
        assert(r1[0] == a1 + r[0]);
        assert(split_on(s, p) == r1.update(0, seq![s[0]] + r1[0]));
        assert(seq![s[0]] + (a1 + r[0]) =~= a + r[0]);
        assert(r.update(0, a1 + r[0]).update(0, a + r[0]) =~= r.update(0, a + r[0]));
    }
}

/// A block, with respect to a separator of `k` zeros: non-empty, bounded by
/// `'1'` on both sides, and containing no run of `k` zeros.
pub open spec fn is_block(s: Seq<char>, k: nat) -> bool {
    &&& s.len() > 0
    &&& s.first() == '1'
    &&& s.last() == '1'
    &&& forall|i: int| !occurs_at(s, zeros(k), i)
}

pub open spec fn all_blocks(parts: Seq<Seq<char>>, k: nat) -> bool {
    forall|j: int| 0 <= j < parts.len() ==> is_block(#[trigger] parts[j], k)
}

/// A join of non-empty parts keeps the first and last characters of its
/// outermost parts.
pub proof fn lemma_join_ends(parts: Seq<Seq<char>>, sep: Seq<char>)
    requires
        parts.len() > 0,
        forall|j: int| 0 <= j < parts.len() ==> (#[trigger] parts[j]).len() > 0,
    ensures
        join_with(parts, sep).len() > 0,
        join_with(parts, sep).first() == parts.first().first(),
        join_with(parts, sep).last() == parts.last().last(),
    decreases parts.len(),
{
    if parts.len() == 1 {
    } else {
        lemma_join_ends(parts.drop_first(), sep);
    }
}

/// Joining blocks with a separator of fewer than `k` zeros never creates a
/// run of `k` zeros: runs inside parts are too short, separator runs are
/// too short, and the `'1'` at each part boundary keeps runs from merging.
pub proof fn lemma_join_no_run(parts: Seq<Seq<char>>, m: nat, k: nat)
    requires
        parts.len() > 0,
        m < k,
        all_blocks(parts, k),
    ensures
        is_block(join_with(parts, zeros(m)), k),
    decreases parts.len(),
{
    let sep = zeros(m);
    let z = zeros(k);
    let s = join_with(parts, sep);
    assert(forall|j: int| 0 <= j < parts.len() ==> (#[trigger] parts[j]).len() > 0);
    lemma_join_ends(parts, sep);
    if parts.len() == 1 {
        assert(s == parts[0]);
        assert(is_block(parts[0], k));
    } else {
        let a = parts[0];
        let al = a.len() as int;
        let rest = parts.drop_first();
        assert(all_blocks(rest, k)) by {
            assert(forall|j: int|
                0 <= j < rest.len() ==> #[trigger] rest[j] == parts[j + 1] && is_block(
                    parts[j + 1],
                    k,
                ));
        }
        lemma_join_no_run(rest, m, k);
        let tail = join_with(rest, sep);
        assert(s == (a + sep) + tail);
        assert forall|i: int| !occurs_at(s, z, i) by {
            if occurs_at(s, z, i) {
                assert forall|j: int| i <= j < i + k implies s[j] == '0' by {
                    assert(s.subrange(i, i + k as int)[j - i] == z[j - i]);
                }
                if i + k <= al {
                    assert(occurs_at(a, z, i)) by {
                        assert(a.subrange(i, i + k as int) =~= z) by {
                            assert forall|t: int| 0 <= t < k implies a.subrange(
                                i,
                                i + k as int,
                            )[t] == z[t] by {
                                assert(a[i + t] == s[i + t]);
                            }
                        }
                    }
                    assert(is_block(a, k));
                } else if i < al {
                    assert(s[al - 1] == a.last());
                    assert(s[al - 1] == '0');
                } else if i - al < m {
                    assert(s[al + m] == tail.first());
                    assert(tail.first() == '1');
                    assert(s[al + m] == '0');
                } else {
                    let i2 = i - al - m;
                    assert(occurs_at(tail, z, i2)) by {
                        assert(tail.subrange(i2, i2 + k as int) =~= z) by {
                            assert forall|t: int| 0 <= t < k implies tail.subrange(
                                i2,
                                i2 + k as int,
                            )[t] == z[t] by {
                                assert(tail[i2 + t] == s[i + t]);
                            }
                        }
                    }
                    assert(is_block(tail, k));
                }
            }
        }
    }
}

/// Splitting on a separator of `k` zeros exactly undoes joining blocks with
/// that separator.
pub proof fn lemma_split_join(parts: Seq<Seq<char>>, k: nat)
    requires
        k > 0,
        parts.len() > 0,
        all_blocks(parts, k),
    ensures
        split_on(join_with(parts, zeros(k)), zeros(k)) == parts,
    decreases parts.len(),
{
    let p = zeros(k);
    let s = join_with(parts, p);
    if parts.len() == 1 {
        assert(s == parts[0]);
        assert(is_block(parts[0], k));
        lemma_split_no_occurrence(parts[0], p);
        assert(seq![parts[0]] =~= parts);
    } else {
        let a = parts[0];
        let al = a.len() as int;
        let rest = parts.drop_first();
        assert(all_blocks(rest, k)) by {
            assert(forall|j: int|
                0 <= j < rest.len() ==> #[trigger] rest[j] == parts[j + 1] && is_block(
                    parts[j + 1],
                    k,
                ));
        }
        let tail = join_with(rest, p);
        assert(s == (a + p) + tail);
        let b = p + tail;
        assert(s =~= a + b);
        assert(is_block(a, k));
        assert forall|i: int| 0 <= i < al implies !occurs_at(a + b, p, i) by {
            if occurs_at(a + b, p, i) {
                assert forall|j: int| i <= j < i + k implies s[j] == '0' by {
                    assert((a + b).subrange(i, i + k as int)[j - i] == p[j - i]);
                    assert(s =~= a + b);
                }
                if i + k <= al {
                    assert(occurs_at(a, p, i)) by {
                        assert(a.subrange(i, i + k as int) =~= p) by {
                            assert forall|t: int| 0 <= t < k implies a.subrange(
                                i,
                                i + k as int,
                            )[t] == p[t] by {
                                assert(a[i + t] == s[i + t]);
                            }
                        }
                    }
                } else {
                    assert(s[al - 1] == a.last());
                    assert(s[al - 1] == '0');
                }
            }
        }
        lemma_split_clean_prefix(a, b, p);
        lemma_split_at_sep(tail, p);
        lemma_split_join(rest, k);
        let r = split_on(b, p);
        assert(r == seq![Seq::<char>::empty()] + rest);
        assert(r[0] == Seq::<char>::empty());
        assert(a + r[0] =~= a);
        assert(split_on(a + b, p) == r.update(0, a + r[0]));
        assert(split_on(s, p) == r.update(0, a + r[0]));
        assert(r.update(0, a + r[0]) =~= parts);
    }
}

/// Unrolling a join at the back: appending one more part appends one more
/// separator and that part.
pub proof fn lemma_join_snoc<A>(parts: Seq<Seq<A>>, x: Seq<A>, sep: Seq<A>)
    requires
        parts.len() >= 1,
    ensures
        join_with(parts.push(x), sep) == join_with(parts, sep) + sep + x,
    decreases parts.len(),
{
    if parts.len() == 1 {
        let q = parts.push(x);
        assert(q.drop_first() =~= seq![x]);
        assert(join_with(seq![x], sep) == x);
        assert(q[0] == parts[0]);
    } else {
        let q = parts.push(x);
        assert(q.drop_first() =~= parts.drop_first().push(x));
        lemma_join_snoc(parts.drop_first(), x, sep);
        assert(q[0] == parts[0]);
        assert(parts[0] + sep + (join_with(parts.drop_first(), sep) + sep + x) =~= (parts[0] + sep
            + join_with(parts.drop_first(), sep)) + sep + x);
    }
}

/// The summed length of a list of parts.
pub open spec fn parts_len<A>(parts: Seq<Seq<A>>) -> int
    decreases parts.len(),
{
    if parts.len() == 0 {
        0
    } else {
        parts.first().len() + parts_len(parts.drop_first())
    }
}

/// A join's length: the parts' lengths, plus one separator length for each
/// gap between consecutive parts — however long or short the parts are.
pub proof fn lemma_join_len<A>(parts: Seq<Seq<A>>, sep: Seq<A>)
    requires
        parts.len() > 0,
    ensures
        join_with(parts, sep).len() == parts_len(parts) + sep.len() * (parts.len() - 1),
    decreases parts.len(),
{
    if parts.len() == 1 {
        assert(parts_len(parts.drop_first()) == 0);
    } else {
        lemma_join_len(parts.drop_first(), sep);
        assert(parts_len(parts) == parts.first().len() + parts_len(parts.drop_first()));
        let m = sep.len() as int;
        let n = parts.len() as int;
        assert(m * (n - 1) == m * (n - 2) + m) by (nonlinear_arith);
    }
}

/// A join of two part lists is the join of each, with one separator
/// between.
pub proof fn lemma_join_concat<A>(a: Seq<Seq<A>>, b: Seq<Seq<A>>, sep: Seq<A>)
    requires
        a.len() > 0,
        b.len() > 0,
    ensures
        join_with(a + b, sep) == join_with(a, sep) + sep + join_with(b, sep),
    decreases a.len(),
{
    if a.len() == 1 {
        assert((a + b).drop_first() =~= b);
        assert((a + b)[0] == a[0]);
        if b.len() == 1 {
            assert(join_with(a + b, sep) == a[0] + sep + b[0]);
        }
    } else {
        assert((a + b).drop_first() =~= a.drop_first() + b);
        lemma_join_concat(a.drop_first(), b, sep);
        assert((a + b)[0] == a[0]);
        assert(a[0] + sep + (join_with(a.drop_first(), sep) + sep + join_with(b, sep)) =~= (a[0]
            + sep + join_with(a.drop_first(), sep)) + sep + join_with(b, sep));
    }
}

/// Splitting a block, a separator, and a remainder recovers the block and
/// the remainder's own split.
pub proof fn lemma_split_block_prefix(a: Seq<char>, b: Seq<char>, k: nat)
    requires
        k > 0,
        is_block(a, k),
    ensures
        split_on(a + (zeros(k) + b), zeros(k)) == seq![a] + split_on(b, zeros(k)),
{
    let p = zeros(k);
    let s = a + (p + b);
    let al = a.len() as int;
    assert forall|i: int| 0 <= i < al implies !occurs_at(a + (p + b), p, i) by {
        if occurs_at(a + (p + b), p, i) {
            assert forall|j: int| i <= j < i + k implies s[j] == '0' by {
                assert((a + (p + b)).subrange(i, i + k as int)[j - i] == p[j - i]);
            }
            if i + k <= al {
                assert(occurs_at(a, p, i)) by {
                    assert(a.subrange(i, i + k as int) =~= p) by {
                        assert forall|t: int| 0 <= t < k implies a.subrange(i, i + k as int)[t]
                            == p[t] by {
                            assert(a[i + t] == s[i + t]);
                        }
                    }
                }
            } else {
                assert(s[al - 1] == a.last());
                assert(s[al - 1] == '0');
            }
        }
    }
    lemma_split_clean_prefix(a, p + b, p);
    lemma_split_at_sep(b, p);
    lemma_split_len(b, p);
    let r = split_on(p + b, p);
    assert(r == seq![Seq::<char>::empty()] + split_on(b, p));
    assert(r[0] == Seq::<char>::empty());
    assert(a + r[0] =~= a);
    assert(split_on(s, p) == r.update(0, a));
    assert(r.update(0, a) =~= seq![a] + split_on(b, p));
}

/// The binary digits of one symbol: one time unit of tone for a dot, three
/// for a line, and one unit of silence for a word gap.
pub open spec fn unit_bits(u: MorseUnit) -> Seq<char> {
    match u {
        MorseUnit::Dot => seq!['1'],
        MorseUnit::Line => seq!['1', '1', '1'],
        MorseUnit::Whitespace => seq!['0'],
    }
}

/// The binary digits of one character unit: its symbols' digits joined by
/// the single-zero intra-character gap.
pub open spec fn char_bits(units: Seq<MorseUnit>) -> Seq<char> {
    join_with(units.map_values(|u: MorseUnit| unit_bits(u)), zeros(1))
}

/// A mark is a symbol that sounds: a dot or a line, never a word gap.
pub open spec fn is_mark(u: MorseUnit) -> bool {
    u is Dot || u is Line
}

pub open spec fn all_marks(units: Seq<MorseUnit>) -> bool {
    forall|i: int| 0 <= i < units.len() ==> is_mark(#[trigger] units[i])
}

/// A mark's digits are all ones, so they form a block for every separator.
pub proof fn lemma_mark_bits_block(u: MorseUnit, k: nat)
    requires
        is_mark(u),
        k >= 1,
    ensures
        is_block(unit_bits(u), k),
{
    let tok = unit_bits(u);
    assert forall|i: int| !occurs_at(tok, zeros(k), i) by {
        if occurs_at(tok, zeros(k), i) {
            assert(tok.subrange(i, i + k as int)[0] == zeros(k)[0]);
            assert(tok[i] == '0');
        }
    }
}

/// The digits of a non-empty, all-mark character unit form a block for any
/// separator of two zeros or more.
pub proof fn lemma_char_bits_block(units: Seq<MorseUnit>, k: nat)
    requires
        units.len() > 0,
        all_marks(units),
        k >= 2,
    ensures
        is_block(char_bits(units), k),
{
    let toks = units.map_values(|u: MorseUnit| unit_bits(u));
    assert forall|j: int| 0 <= j < toks.len() implies is_block(#[trigger] toks[j], k) by {
        lemma_mark_bits_block(units[j], k);
    }
    lemma_join_no_run(toks, 1, k);
}

/// The symbol tokens of an all-mark character unit are recovered exactly by
/// splitting its digits on a single zero.
pub proof fn lemma_char_bits_split(units: Seq<MorseUnit>)
    requires
        units.len() > 0,
        all_marks(units),
    ensures
        split_on(char_bits(units), zeros(1)) == units.map_values(|u: MorseUnit| unit_bits(u)),
{
    let toks = units.map_values(|u: MorseUnit| unit_bits(u));
    assert forall|j: int| 0 <= j < toks.len() implies is_block(#[trigger] toks[j], 1) by {
        lemma_mark_bits_block(units[j], 1);
    }
    lemma_split_join(toks, 1);
}

/// The symbol encoded by one token of a character unit's digit string:
/// `"1"` is a dot and `"111"` is a line.  Anything else is malformed.
pub open spec fn mark_of_tok(t: Seq<char>) -> Option<MorseUnit> {
    if t == seq!['1'] {
        Some(MorseUnit::Dot)
    } else if t == seq!['1', '1', '1'] {
        Some(MorseUnit::Line)
    } else {
        None
    }
}

/// All-or-nothing decoding of a list of symbol tokens.
pub open spec fn marks_of_toks(ts: Seq<Seq<char>>) -> Option<Seq<MorseUnit>>
    decreases ts.len(),
{
    if ts.len() == 0 {
        Some(Seq::empty())
    } else {
        match mark_of_tok(ts.first()) {
            None => None,
            Some(u) => match marks_of_toks(ts.drop_first()) {
                None => None,
                Some(rest) => Some(seq![u] + rest),
            },
        }
    }
}

/// The symbol sequence encoded by one character unit's digit string.
pub open spec fn units_of_bits(tok: Seq<char>) -> Option<Seq<MorseUnit>> {
    marks_of_toks(split_on(tok, zeros(1)))
}

pub proof fn lemma_marks_roundtrip(units: Seq<MorseUnit>)
    requires
        all_marks(units),
    ensures
        marks_of_toks(units.map_values(|u: MorseUnit| unit_bits(u))) == Some(units),
    decreases units.len(),
{
    let ts = units.map_values(|u: MorseUnit| unit_bits(u));
    if units.len() == 0 {
        assert(ts.len() == 0);
    } else {
        assert(ts.first() == unit_bits(units.first()));
        assert(mark_of_tok(unit_bits(units.first())) == Some(units.first()));
        assert(ts.drop_first() =~= units.drop_first().map_values(|u: MorseUnit| unit_bits(u)));
        lemma_marks_roundtrip(units.drop_first());
        assert(seq![units.first()] + units.drop_first() =~= units);
    }
}

/// Decoding the digit string of a non-empty all-mark character unit gives
/// back exactly its symbols.
pub proof fn lemma_units_of_char_bits(units: Seq<MorseUnit>)
    requires
        units.len() > 0,
        all_marks(units),
    ensures
        units_of_bits(char_bits(units)) == Some(units),
{
    lemma_char_bits_split(units);
    lemma_marks_roundtrip(units);
}

/// The views of a vector of character vectors.
pub open spec fn views_of(vs: Seq<Vec<char>>) -> Seq<Seq<char>> {
    vs.map_values(|v: Vec<char>| v@)
}

/// The characters of `s` from position `start` on, as a fresh vector.
fn copy_tail(s: &Vec<char>, start: usize) -> (r: Vec<char>)
    requires
        start <= s.len(),
    ensures
        r@ == s@.skip(start as int),
{
    let mut r: Vec<char> = Vec::new();
    let mut i: usize = start;
    while i < s.len()
        invariant
            start <= i <= s.len(),
            r@ == s@.subrange(start as int, i as int),
        decreases s.len() - i,
    {
        let c = s[i];
        r.push(c);
        proof {
            assert(s@.subrange(start as int, i as int).push(s@[i as int]) =~= s@.subrange(
                start as int,
                i + 1,
            ));
        }
        i = i + 1;
    }
    proof {
        assert(s@.subrange(start as int, s@.len() as int) =~= s@.skip(start as int));
    }
    r
}

/// Whether a run of `k` zeros stands at position `start` of `s`.
fn is_zeros_at(s: &Vec<char>, start: usize, k: usize) -> (r: bool)
    requires
        start <= s.len(),
        1 <= k,
    ensures
        r == (start + k <= s.len() && s@.skip(start as int).take(k as int) == zeros(k as nat)),
{
    if k > s.len() - start {
        return false;
    }
    let mut j: usize = 0;
    while j < k
        invariant
            start + k <= s.len(),
            0 <= j <= k,
            forall|t: int| start <= t < start + j ==> s@[t] == '0',
        decreases k - j,
    {
        if s[start + j] != '0' {
            proof {
                let w = s@.skip(start as int).take(k as int);
                if w == zeros(k as nat) {
                    assert(w[j as int] == zeros(k as nat)[j as int]);
                    assert(s@[start + j] == '0');
                }
            }
            return false;
        }
        j = j + 1;
    }
    proof {
        assert(s@.skip(start as int).take(k as int) =~= zeros(k as nat));
    }
    true
}

/// Exact splitting of `s@.skip(start)` on a separator of `k` zeros,
/// executing the recursion of [`split_on`] step for step.
pub(crate) fn split_zeros_from(s: &Vec<char>, start: usize, k: usize) -> (r: Vec<Vec<char>>)
    requires
        start <= s.len(),
        1 <= k,
    ensures
        views_of(r@) == split_on(s@.skip(start as int), zeros(k as nat)),
        r@.len() >= 1,
    decreases s.len() - start,
{
    let ghost tail0 = s@.skip(start as int);
    let ghost z = zeros(k as nat);
    if s.len() - start < k {
        let t = copy_tail(s, start);
        let mut r: Vec<Vec<char>> = Vec::new();
        r.push(t);
        proof {
            assert(views_of(r@) =~= seq![tail0]);
        }
        r
    } else if is_zeros_at(s, start, k) {
        let mut rest = split_zeros_from(s, start + k, k);
        let ghost restv = views_of(rest@);
        rest.insert(0, Vec::new());
        proof {
            assert(tail0.skip(k as int) =~= s@.skip(start + k));
            assert(split_on(tail0, z) == seq![Seq::<char>::empty()] + split_on(
                s@.skip(start + k),
                z,
            ));
            assert(views_of(rest@) =~= seq![Seq::<char>::empty()] + restv);
        }
        rest
    } else {
        let c = s[start];
        let mut rest = split_zeros_from(s, start + 1, k);
        let ghost restv = views_of(rest@);
        proof {
            lemma_split_len(s@.skip(start + 1), z);
            assert(restv.len() == rest@.len());
        }
        let mut first = rest.remove(0);
        first.insert(0, c);
        rest.insert(0, first);
        proof {
            assert(tail0.skip(1) =~= s@.skip(start + 1));
            assert(tail0.take(k as int) != z);
            assert(tail0[0] == s@[start as int]);
            assert(split_on(tail0, z) == restv.update(0, seq![s@[start as int]] + restv[0]));
            assert(first@ =~= seq![s@[start as int]] + restv[0]);
            assert(views_of(rest@) =~= restv.update(0, seq![s@[start as int]] + restv[0]));
        }
        rest
    }
}

} // verus!
