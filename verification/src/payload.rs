//! The credential plaintext layout: line one is the secret, every further
//! line is one `key=value` metadata pair. Keys must not contain `=` or
//! newlines and secrets and values must not contain newlines; inputs outside
//! that shape do not round-trip and are rejected by the store.

use vstd::prelude::*;
use vstd::string::{StrSliceExecFns, StringExecFns};

use crate::{Error, ErrorKind};

verus! {

// ---------------------------------------------------------------------------
// Specification model
// ---------------------------------------------------------------------------

/// Index of the first occurrence of `c` in `s`, or `s.len()` when absent.
pub open spec fn first_occurrence(s: Seq<char>, c: char) -> int
    decreases s.len(),
{
    if s.len() == 0 {
        0
    } else if s[0] == c {
        0
    } else {
        1 + first_occurrence(s.subrange(1, s.len() as int), c)
    }
}

pub proof fn lemma_first_occurrence_bounds(s: Seq<char>, c: char)
    ensures
        0 <= first_occurrence(s, c) <= s.len(),
        forall|j: int| 0 <= j < first_occurrence(s, c) ==> s[j] != c,
        first_occurrence(s, c) < s.len() ==> s[first_occurrence(s, c)] == c,
    decreases s.len(),
{
    if s.len() == 0 {
    } else if s[0] == c {
    } else {
        let t = s.subrange(1, s.len() as int);
        lemma_first_occurrence_bounds(t, c);
        assert forall|j: int| 0 <= j < first_occurrence(s, c) implies s[j] != c by {
            if j > 0 {
                assert(t[j - 1] == s[j]);
            }
        }
    }
}

/// The index returned by `first_occurrence` is the only one with its
/// characterization: nothing equal to `c` before it, and `c` at it unless it
/// is the length.
pub proof fn lemma_first_occurrence_unique(s: Seq<char>, c: char, i: int)
    requires
        0 <= i <= s.len(),
        forall|j: int| 0 <= j < i ==> s[j] != c,
        i < s.len() ==> s[i] == c,
    ensures
        i == first_occurrence(s, c),
{
    lemma_first_occurrence_bounds(s, c);
    let f = first_occurrence(s, c);
    if i < f {
        assert(s[i] != c);
    } else if f < i {
        assert(s[f] == c);
    }
}

/// Everything before the first newline: the secret of a payload.
pub open spec fn first_line(s: Seq<char>) -> Seq<char> {
    s.subrange(0, first_occurrence(s, '\n'))
}

/// Everything after the first newline, or empty when there is none.
pub open spec fn after_first_line(s: Seq<char>) -> Seq<char> {
    if first_occurrence(s, '\n') == s.len() {
        Seq::<char>::empty()
    } else {
        s.subrange(first_occurrence(s, '\n') + 1, s.len() as int)
    }
}

/// The newline-separated pieces of `s`, in order. An empty `s` is one empty
/// line; a trailing newline contributes one empty final line.
pub open spec fn split_lines(s: Seq<char>) -> Seq<Seq<char>>
    decreases s.len(),
    via split_lines_decreases
{
    if first_occurrence(s, '\n') == s.len() {
        seq![s]
    } else {
        seq![first_line(s)] + split_lines(s.subrange(first_occurrence(s, '\n') + 1, s.len() as int))
    }
}

#[via_fn]
proof fn split_lines_decreases(s: Seq<char>) {
    lemma_first_occurrence_bounds(s, '\n');
}

/// One metadata line read as a pair: split at the first `=`, or nothing when
/// the line holds no `=` at all.
pub open spec fn pair_of_line(l: Seq<char>) -> Option<(Seq<char>, Seq<char>)> {
    let i = first_occurrence(l, '=');
    if i == l.len() {
        None
    } else {
        Some((l.subrange(0, i), l.subrange(i + 1, l.len() as int)))
    }
}

/// The metadata pairs of a sequence of lines, in order; lines without `=`
/// carry no pair.
pub open spec fn pairs_of_lines(ls: Seq<Seq<char>>) -> Seq<(Seq<char>, Seq<char>)>
    decreases ls.len(),
{
    if ls.len() == 0 {
        seq![]
    } else {
        match pair_of_line(ls[0]) {
            Some(p) => seq![p] + pairs_of_lines(ls.drop_first()),
            None => pairs_of_lines(ls.drop_first()),
        }
    }
}

/// The metadata pairs encoded after the first line of a payload.
pub open spec fn parsed_pairs(payload: Seq<char>) -> Seq<(Seq<char>, Seq<char>)> {
    pairs_of_lines(split_lines(after_first_line(payload)))
}

/// The metadata lines of a payload under construction: one `\n` + `key` +
/// `=` + `value` block per pair, in order.
pub open spec fn meta_lines(pairs: Seq<(Seq<char>, Seq<char>)>) -> Seq<char>
    decreases pairs.len(),
{
    if pairs.len() == 0 {
        Seq::<char>::empty()
    } else {
        meta_lines(pairs.drop_last()) + seq!['\n'] + pairs.last().0 + seq!['='] + pairs.last().1
    }
}

/// The whole plaintext payload for a secret and its metadata pairs.
pub open spec fn payload_of(secret: Seq<char>, pairs: Seq<(Seq<char>, Seq<char>)>) -> Seq<char> {
    secret + meta_lines(pairs)
}

/// A secret is storable when it cannot bleed into the metadata lines.
pub open spec fn wf_secret(s: Seq<char>) -> bool {
    !s.contains('\n')
}

/// A metadata pair is storable when its line reads back as the same pair:
/// no `=` or newline in the key, no newline in the value.
pub open spec fn wf_pair(p: (Seq<char>, Seq<char>)) -> bool {
    &&& !p.0.contains('=')
    &&& !p.0.contains('\n')
    &&& !p.1.contains('\n')
}

pub open spec fn wf_pairs(ps: Seq<(Seq<char>, Seq<char>)>) -> bool {
    forall|i: int| 0 <= i < ps.len() ==> wf_pair(#[trigger] ps[i])
}

// ---------------------------------------------------------------------------
// Executable codec
// ---------------------------------------------------------------------------

/// Index of the first occurrence of `c` in `s`, or the character length of
/// `s` when `c` does not occur.
pub fn find_char(s: &str, c: char) -> (i: usize)
    ensures
        i == first_occurrence(s@, c),
{
    let n = s.unicode_len();
    let mut i: usize = 0;
    while i < n
        invariant
            0 <= i <= n,
            n == s@.len(),
            forall|j: int| 0 <= j < i ==> s@[j] != c,
        decreases n - i,
    {
        if s.get_char(i) == c {
            proof {
                lemma_first_occurrence_unique(s@, c, i as int);
            }
            return i;
        }
        i = i + 1;
    }
    proof {
        lemma_first_occurrence_unique(s@, c, n as int);
    }
    n
}

/// The first line of a payload: the stored secret.
pub fn first_line_of(s: &str) -> (r: String)
    ensures
        r@ == first_line(s@),
{
    proof {
        lemma_first_occurrence_bounds(s@, '\n');
    }
    let i = find_char(s, '\n');
    s.substring_char(0, i).to_owned()
}

/// Serializes a secret and its metadata pairs into the plaintext payload:
/// the secret, then one `\n` + `key` + `=` + `value` block per pair, in the
/// order given (duplicate keys are kept as given).
pub fn serialize_payload(secret: &str, metadata: &Vec<(String, String)>) -> (r: String)
    ensures
        r@ == payload_of(secret@, metadata.deep_view()),
{
    let ghost pairs = metadata.deep_view();
    let mut out = secret.to_owned();
    let mut i: usize = 0;
    while i < metadata.len()
        invariant
            0 <= i <= metadata.len(),
            pairs == metadata.deep_view(),
            pairs.len() == metadata.len(),
            forall|j: int| 0 <= j < metadata.len()
                ==> #[trigger] pairs[j] == (metadata[j].0@, metadata[j].1@),
            out@ == payload_of(secret@, pairs.take(i as int)),
        decreases metadata.len() - i,
    {
        out.append("\n");
        out.append(metadata[i].0.as_str());
        out.append("=");
        out.append(metadata[i].1.as_str());
        proof {
            let t1 = pairs.take(i as int + 1);
            assert(t1.drop_last() =~= pairs.take(i as int));
            assert(t1.last() == pairs[i as int]);
            reveal_strlit("\n");
            reveal_strlit("=");
            assert("\n"@ =~= seq!['\n']);
            assert("="@ =~= seq!['=']);
            assert(out@ =~= payload_of(secret@, t1));
        }
        i = i + 1;
    }
    proof {
        assert(pairs.take(pairs.len() as int) =~= pairs);
    }
    out
}

/// Reads every metadata pair out of `s` (the text after a payload's first
/// line), appending them to `out` in line order, duplicates kept.
fn parse_lines_into(s: &str, out: &mut Vec<(String, String)>)
    ensures
        final(out).deep_view() == old(out).deep_view() + pairs_of_lines(split_lines(s@)),
    decreases s@.len(),
{
    proof {
        lemma_first_occurrence_bounds(s@, '\n');
    }
    let n = s.unicode_len();
    let i = find_char(s, '\n');
    let line = s.substring_char(0, i);
    let ghost lines = split_lines(s@);
    proof {
        if i < n {
            assert(lines =~= seq![first_line(s@)] + split_lines(
                s@.subrange(i as int + 1, n as int),
            ));
        } else {
            assert(line@ =~= s@);
        }
        assert(lines[0] == line@);
        lemma_first_occurrence_bounds(line@, '=');
    }
    let m = line.unicode_len();
    let e = find_char(line, '=');
    if e < m {
        let k = line.substring_char(0, e).to_owned();
        let v = line.substring_char(e + 1, m).to_owned();
        let ghost before = out.deep_view();
        out.push((k, v));
        proof {
            assert(out.deep_view() =~= before + seq![(k@, v@)]);
            assert(pair_of_line(line@) == Some((k@, v@)));
        }
    } else {
        proof {
            assert(pair_of_line(line@) is None);
        }
    }
    if i < n {
        let rest = s.substring_char(i + 1, n);
        parse_lines_into(rest, out);
        proof {
            assert(lines.drop_first() =~= split_lines(rest@));
            assert(out.deep_view() =~= old(out).deep_view() + pairs_of_lines(lines));
        }
    } else {
        proof {
            assert(lines.drop_first() =~= Seq::<Seq<char>>::empty());
            assert(pairs_of_lines(lines.drop_first()) =~= Seq::<(Seq<char>, Seq<char>)>::empty());
            assert(out.deep_view() =~= old(out).deep_view() + pairs_of_lines(lines));
        }
    }
}

/// The metadata pairs encoded after the first line of `payload`, in line
/// order, duplicates kept.
pub fn parse_payload_pairs(payload: &str) -> (r: Vec<(String, String)>)
    ensures
        r.deep_view() == parsed_pairs(payload@),
{
    proof {
        lemma_first_occurrence_bounds(payload@, '\n');
    }
    let n = payload.unicode_len();
    let i = find_char(payload, '\n');
    let mut out: Vec<(String, String)> = Vec::new();
    proof {
        assert(out.deep_view() =~= Seq::<(Seq<char>, Seq<char>)>::empty());
    }
    if i < n {
        let rest = payload.substring_char(i + 1, n);
        let ghost dv0 = out.deep_view();
        parse_lines_into(rest, &mut out);
        proof {
            assert(rest@ == after_first_line(payload@));
            assert(out.deep_view() == dv0 + pairs_of_lines(split_lines(rest@)));
            assert(dv0 + pairs_of_lines(split_lines(rest@)) =~= pairs_of_lines(
                split_lines(rest@),
            ));
            assert(out.deep_view() == pairs_of_lines(split_lines(rest@)));
            assert(split_lines(rest@) == split_lines(after_first_line(payload@)));
            assert(parsed_pairs(payload@) == pairs_of_lines(
                split_lines(after_first_line(payload@)),
            ));
            assert(out.deep_view() =~= parsed_pairs(payload@));
        }
    } else {
        proof {
            let ls = split_lines(after_first_line(payload@));
            assert(after_first_line(payload@) =~= Seq::<char>::empty());
            assert(first_occurrence(Seq::<char>::empty(), '\n') == 0);
            assert(ls =~= seq![Seq::<char>::empty()]);
            assert(pair_of_line(ls[0]) is None);
            assert(ls.drop_first() =~= Seq::<Seq<char>>::empty());
            assert(pairs_of_lines(ls.drop_first()) =~= Seq::<(Seq<char>, Seq<char>)>::empty());
            assert(pairs_of_lines(ls) =~= Seq::<(Seq<char>, Seq<char>)>::empty());
            assert(out.deep_view() =~= parsed_pairs(payload@));
        }
    }
    out
}

/// Every piece of `split_lines` is newline-free.
pub proof fn lemma_split_lines_no_newline(s: Seq<char>)
    ensures
        forall|i: int|
            0 <= i < split_lines(s).len() ==> !(#[trigger] split_lines(s)[i]).contains('\n'),
    decreases s.len(),
{
    lemma_first_occurrence_bounds(s, '\n');
    let f = first_occurrence(s, '\n');
    if f == s.len() {
        assert forall|i: int|
            0 <= i < split_lines(s).len() implies !(#[trigger] split_lines(s)[i]).contains(
            '\n',
        ) by {
            assert(split_lines(s)[i] == s);
            if s.contains('\n') {
                let w = choose|w: int| 0 <= w < s.len() && s[w] == '\n';
                assert(s[w] != '\n');
            }
        }
    } else {
        let rest = s.subrange(f + 1, s.len() as int);
        lemma_split_lines_no_newline(rest);
        assert forall|i: int|
            0 <= i < split_lines(s).len() implies !(#[trigger] split_lines(s)[i]).contains(
            '\n',
        ) by {
            if i == 0 {
                let l = first_line(s);
                if l.contains('\n') {
                    let w = choose|w: int| 0 <= w < l.len() && l[w] == '\n';
                    assert(s[w] == '\n');
                }
            } else {
                assert(split_lines(s)[i] == split_lines(rest)[i - 1]);
            }
        }
    }
}

/// Pairs parsed out of newline-free lines are storable again: parsing cannot
/// produce a key holding `=` or a newline, nor a value holding a newline.
pub proof fn lemma_pairs_of_lines_wf(ls: Seq<Seq<char>>)
    requires
        forall|i: int| 0 <= i < ls.len() ==> !(#[trigger] ls[i]).contains('\n'),
    ensures
        wf_pairs(pairs_of_lines(ls)),
    decreases ls.len(),
{
    if ls.len() == 0 {
    } else {
        lemma_pairs_of_lines_wf(ls.drop_first());
        let l = ls[0];
        lemma_first_occurrence_bounds(l, '=');
        match pair_of_line(l) {
            Some(p) => {
                assert(!l.contains('\n'));
                let f = first_occurrence(l, '=');
                if p.0.contains('=') {
                    let w = choose|w: int| 0 <= w < p.0.len() && p.0[w] == '=';
                    assert(l[w] == '=');
                }
                if p.0.contains('\n') {
                    let w = choose|w: int| 0 <= w < p.0.len() && p.0[w] == '\n';
                    assert(l[w] == '\n');
                    assert(l.contains('\n'));
                }
                if p.1.contains('\n') {
                    let w = choose|w: int| 0 <= w < p.1.len() && p.1[w] == '\n';
                    assert(l[f + 1 + w] == '\n');
                    assert(l.contains('\n'));
                }
                assert(wf_pair(p));
                assert forall|i: int|
                    0 <= i < pairs_of_lines(ls).len() implies wf_pair(
                    #[trigger] pairs_of_lines(ls)[i],
                ) by {
                    if i > 0 {
                        assert(pairs_of_lines(ls)[i] == pairs_of_lines(ls.drop_first())[i - 1]);
                    }
                }
            },
            None => {},
        }
    }
}

/// Pairs read back from any payload are always storable.
pub proof fn lemma_parsed_pairs_wf(payload: Seq<char>)
    ensures
        wf_pairs(parsed_pairs(payload)),
{
    lemma_split_lines_no_newline(after_first_line(payload));
    lemma_pairs_of_lines_wf(split_lines(after_first_line(payload)));
}

// ---------------------------------------------------------------------------
// The metadata mapping
// ---------------------------------------------------------------------------

/// The key-to-value mapping described by a pair sequence: a later pair with
/// the same key overwrites an earlier one.
pub open spec fn map_of_pairs<K, V>(ps: Seq<(K, V)>) -> Map<K, V>
    decreases ps.len(),
{
    if ps.len() == 0 {
        Map::<K, V>::empty()
    } else {
        map_of_pairs(ps.drop_last()).insert(ps.last().0, ps.last().1)
    }
}

pub open spec fn unique_keys<K, V>(ps: Seq<(K, V)>) -> bool {
    forall|i: int, j: int| 0 <= i < j < ps.len() ==> (#[trigger] ps[i]).0 != (#[trigger] ps[j]).0
}

/// A metadata edit applied to a mapping: a present value sets or overwrites
/// the key, an absent one deletes it; later changes win.
pub open spec fn apply_changes(
    m: Map<Seq<char>, Seq<char>>,
    cs: Seq<(Seq<char>, Option<Seq<char>>)>,
) -> Map<Seq<char>, Seq<char>>
    decreases cs.len(),
{
    if cs.len() == 0 {
        m
    } else {
        let prev = apply_changes(m, cs.drop_last());
        match cs.last().1 {
            Some(v) => prev.insert(cs.last().0, v),
            None => prev.remove(cs.last().0),
        }
    }
}

/// A key is in the mapping of a pair sequence exactly when some pair carries it.
pub proof fn lemma_map_of_pairs_domain<K, V>(ps: Seq<(K, V)>, k: K)
    ensures
        map_of_pairs(ps).contains_key(k) <==> exists|i: int|
            0 <= i < ps.len() && (#[trigger] ps[i]).0 == k,
    decreases ps.len(),
{
    if ps.len() == 0 {
    } else {
        lemma_map_of_pairs_domain(ps.drop_last(), k);
        if map_of_pairs(ps).contains_key(k) {
            if ps.last().0 == k {
                assert(ps[ps.len() - 1].0 == k);
            } else {
                let i = choose|i: int|
                    0 <= i < ps.drop_last().len() && (#[trigger] ps.drop_last()[i]).0 == k;
                assert(ps[i].0 == k);
            }
        }
        if exists|i: int| 0 <= i < ps.len() && (#[trigger] ps[i]).0 == k {
            let i = choose|i: int| 0 <= i < ps.len() && (#[trigger] ps[i]).0 == k;
            if i < ps.len() - 1 {
                assert(ps.drop_last()[i].0 == k);
            }
        }
    }
}

/// Removing the one pair that carries `k` removes `k` from the mapping.
pub proof fn lemma_map_of_pairs_remove<K, V>(ps: Seq<(K, V)>, i: int)
    requires
        unique_keys(ps),
        0 <= i < ps.len(),
    ensures
        map_of_pairs(ps.remove(i)) == map_of_pairs(ps).remove(ps[i].0),
    decreases ps.len(),
{
    let k = ps[i].0;
    if i == ps.len() - 1 {
        assert(ps.remove(i) =~= ps.drop_last());
        lemma_map_of_pairs_domain(ps.drop_last(), k);
        assert forall|j: int|
            0 <= j < ps.drop_last().len() implies (#[trigger] ps.drop_last()[j]).0 != k by {
            assert(ps[j] == ps.drop_last()[j]);
        }
        assert(!map_of_pairs(ps.drop_last()).contains_key(k));
        assert(map_of_pairs(ps).remove(k) =~= map_of_pairs(ps.drop_last()));
    } else {
        let q = ps.drop_last();
        assert(unique_keys(q)) by {
            assert forall|a: int, b: int| 0 <= a < b < q.len() implies (#[trigger] q[a]).0 != (
            #[trigger] q[b]).0 by {
                assert(q[a] == ps[a] && q[b] == ps[b]);
            }
        }
        lemma_map_of_pairs_remove(q, i);
        assert(ps.remove(i).drop_last() =~= q.remove(i));
        assert(ps.remove(i).last() == ps.last());
        assert(ps.last().0 != k);
        assert(map_of_pairs(ps.remove(i)) == map_of_pairs(q.remove(i)).insert(
            ps.last().0,
            ps.last().1,
        ));
        assert(map_of_pairs(q).remove(k).insert(ps.last().0, ps.last().1) =~= map_of_pairs(
            q,
        ).insert(ps.last().0, ps.last().1).remove(k));
    }
}

/// With unique keys, the mapping's value at a pair's key is that pair's value.
pub proof fn lemma_map_of_pairs_value<K, V>(ps: Seq<(K, V)>, i: int)
    requires
        unique_keys(ps),
        0 <= i < ps.len(),
    ensures
        map_of_pairs(ps).contains_key(ps[i].0),
        map_of_pairs(ps)[ps[i].0] == ps[i].1,
    decreases ps.len(),
{
    if i == ps.len() - 1 {
    } else {
        let q = ps.drop_last();
        assert(unique_keys(q)) by {
            assert forall|a: int, b: int| 0 <= a < b < q.len() implies (#[trigger] q[a]).0 != (
            #[trigger] q[b]).0 by {
                assert(q[a] == ps[a] && q[b] == ps[b]);
            }
        }
        assert(q[i] == ps[i]);
        lemma_map_of_pairs_value(q, i);
        assert(ps.last().0 != ps[i].0);
    }
}

/// Credential metadata as an insertion-ordered mapping with unique keys.
/// An overwrite or a fresh insertion moves or places the key at the end;
/// the on-disk order after an edit is therefore not the original line order.
pub struct Metadata {
    entries: Vec<(String, String)>,
}

impl Metadata {
    /// The pairs held, in serialization order.
    pub closed spec fn pairs(&self) -> Seq<(Seq<char>, Seq<char>)> {
        self.entries.deep_view()
    }

    pub open spec fn wf(&self) -> bool {
        unique_keys(self.pairs())
    }

    /// The mapping the pairs describe.
    pub open spec fn as_map(&self) -> Map<Seq<char>, Seq<char>> {
        map_of_pairs(self.pairs())
    }

    pub fn new() -> (r: Metadata)
        ensures
            r.pairs() == Seq::<(Seq<char>, Seq<char>)>::empty(),
            r.wf(),
            r.as_map() == Map::<Seq<char>, Seq<char>>::empty(),
    {
        let r = Metadata { entries: Vec::new() };
        proof {
            assert(r.pairs() =~= Seq::<(Seq<char>, Seq<char>)>::empty());
        }
        r
    }

    /// The index of the pair carrying `key`, if one does.
    fn index_of(&self, key: &String) -> (r: Option<usize>)
        ensures
            match r {
                Some(i) => i < self.pairs().len() && self.pairs()[i as int].0 == key@,
                None => forall|i: int|
                    0 <= i < self.pairs().len() ==> (#[trigger] self.pairs()[i]).0 != key@,
            },
    {
        let mut i: usize = 0;
        while i < self.entries.len()
            invariant
                0 <= i <= self.entries.len(),
                forall|j: int| 0 <= j < i ==> (#[trigger] self.pairs()[j]).0 != key@,
            decreases self.entries.len() - i,
        {
            if self.entries[i].0.eq(key) {
                proof {
                    assert(self.pairs()[i as int].0 == key@);
                }
                return Some(i);
            }
            i = i + 1;
        }
        None
    }

    /// Deletes `key` from the mapping; a no-op when it is absent.
    pub fn delete(&mut self, key: &String)
        requires
            old(self).wf(),
        ensures
            final(self).wf(),
            final(self).as_map() == old(self).as_map().remove(key@),
            forall|i: int|
                0 <= i < final(self).pairs().len() ==> (#[trigger] final(self).pairs()[i]).0
                    != key@,
            forall|i: int|
                0 <= i < final(self).pairs().len() ==> exists|j: int|
                    0 <= j < old(self).pairs().len() && #[trigger] final(self).pairs()[i] == old(
                        self,
                    ).pairs()[j],
    {
        let ghost ps = self.pairs();
        match self.index_of(key) {
            Some(i) => {
                self.entries.remove(i);
                proof {
                    assert(self.pairs() =~= ps.remove(i as int));
                    lemma_map_of_pairs_remove(ps, i as int);
                    assert forall|a: int, b: int|
                        0 <= a < b < self.pairs().len() implies (#[trigger] self.pairs()[a]).0 != (
                    #[trigger] self.pairs()[b]).0 by {
                        if b < i as int {
                            assert(self.pairs()[a] == ps[a] && self.pairs()[b] == ps[b]);
                        } else if a < i as int {
                            assert(self.pairs()[a] == ps[a] && self.pairs()[b] == ps[b + 1]);
                        } else {
                            assert(self.pairs()[a] == ps[a + 1] && self.pairs()[b] == ps[b + 1]);
                        }
                    }
                    assert forall|x: int|
                        0 <= x < self.pairs().len() implies (#[trigger] self.pairs()[x]).0
                        != key@ by {
                        if x < i as int {
                            assert(self.pairs()[x] == ps[x]);
                        } else {
                            assert(self.pairs()[x] == ps[x + 1]);
                        }
                    }
                    assert forall|x: int| 0 <= x < self.pairs().len() implies exists|j: int|
                        0 <= j < ps.len() && #[trigger] self.pairs()[x] == ps[j] by {
                        if x < i as int {
                            assert(self.pairs()[x] == ps[x]);
                        } else {
                            assert(self.pairs()[x] == ps[x + 1]);
                        }
                    }
                }
            },
            None => {
                proof {
                    lemma_map_of_pairs_domain(ps, key@);
                    assert(!old(self).as_map().contains_key(key@));
                    assert(final(self).as_map() =~= old(self).as_map().remove(key@));
                    assert forall|x: int| 0 <= x < self.pairs().len() implies exists|j: int|
                        0 <= j < ps.len() && #[trigger] self.pairs()[x] == ps[j] by {
                        assert(self.pairs()[x] == ps[x]);
                    }
                }
            },
        }
    }

    /// Sets `key` to `value`, overwriting any earlier value; the pair moves
    /// to the end of the serialization order.
    pub fn set(&mut self, key: String, value: String)
        requires
            old(self).wf(),
        ensures
            final(self).wf(),
            final(self).as_map() == old(self).as_map().insert(key@, value@),
            forall|i: int|
                0 <= i < final(self).pairs().len() ==> (#[trigger] final(self).pairs()[i] == (
                key@,
                value@,
                )) || exists|j: int|
                    0 <= j < old(self).pairs().len() && final(self).pairs()[i] == old(
                        self,
                    ).pairs()[j],
    {
        self.delete(&key);
        let ghost mid = self.pairs();
        let ghost midm = self.as_map();
        self.entries.push((key, value));
        proof {
            assert(self.pairs() =~= mid.push((key@, value@)));
            assert(self.pairs().drop_last() =~= mid);
            assert(self.as_map() == midm.insert(key@, value@));
            assert(old(self).as_map().remove(key@).insert(key@, value@) =~= old(
                self,
            ).as_map().insert(key@, value@));
            assert forall|a: int, b: int|
                0 <= a < b < self.pairs().len() implies (#[trigger] self.pairs()[a]).0 != (
            #[trigger] self.pairs()[b]).0 by {
                if b == self.pairs().len() - 1 {
                    assert(self.pairs()[a] == mid[a]);
                    assert(self.pairs()[b] == (key@, value@));
                } else {
                    assert(self.pairs()[a] == mid[a] && self.pairs()[b] == mid[b]);
                }
            }
        }
    }

    /// The pairs held, in serialization order, for writing out.
    pub fn into_entries(self) -> (r: Vec<(String, String)>)
        ensures
            r.deep_view() == self.pairs(),
    {
        self.entries
    }
}

// ---------------------------------------------------------------------------
// Round trip
// ---------------------------------------------------------------------------

/// Unfolds `meta_lines` from the front: the first pair contributes the first
/// `\n key = value` block.
proof fn lemma_meta_lines_first(pairs: Seq<(Seq<char>, Seq<char>)>)
    requires
        pairs.len() > 0,
    ensures
        meta_lines(pairs) == seq!['\n'] + pairs[0].0 + seq!['='] + pairs[0].1 + meta_lines(
            pairs.drop_first(),
        ),
    decreases pairs.len(),
{
    if pairs.len() == 1 {
        assert(pairs.drop_last() =~= Seq::<(Seq<char>, Seq<char>)>::empty());
        assert(meta_lines(pairs.drop_last()) =~= Seq::<char>::empty());
        assert(pairs.drop_first() =~= Seq::<(Seq<char>, Seq<char>)>::empty());
        assert(meta_lines(pairs.drop_first()) =~= Seq::<char>::empty());
        assert(meta_lines(pairs) =~= seq!['\n'] + pairs[0].0 + seq!['='] + pairs[0].1
            + meta_lines(pairs.drop_first()));
    } else {
        let q = pairs.drop_last();
        lemma_meta_lines_first(q);
        let r = pairs.drop_first();
        assert(r.drop_last() =~= q.drop_first());
        assert(r.last() == pairs.last());
        assert(meta_lines(pairs) =~= seq!['\n'] + pairs[0].0 + seq!['='] + pairs[0].1
            + meta_lines(r));
    }
}

/// With a newline-free secret, the payload's first line is exactly the
/// secret, and what follows is the metadata block.
proof fn lemma_payload_shape(secret: Seq<char>, pairs: Seq<(Seq<char>, Seq<char>)>)
    requires
        wf_secret(secret),
    ensures
        first_line(payload_of(secret, pairs)) == secret,
        pairs.len() == 0 ==> after_first_line(payload_of(secret, pairs)) == Seq::<char>::empty(),
        pairs.len() > 0 ==> after_first_line(payload_of(secret, pairs)) == meta_lines(
            pairs,
        ).drop_first(),
{
    let p = payload_of(secret, pairs);
    if pairs.len() == 0 {
        assert(meta_lines(pairs) =~= Seq::<char>::empty());
        assert(p =~= secret);
        assert forall|j: int| 0 <= j < p.len() implies p[j] != '\n' by {
            if p[j] == '\n' {
                assert(secret[j] == '\n');
                assert(secret.contains('\n'));
            }
        }
        lemma_first_occurrence_unique(p, '\n', p.len() as int);
        assert(first_line(p) =~= secret);
    } else {
        lemma_meta_lines_first(pairs);
        assert(meta_lines(pairs)[0] == '\n');
        assert(p[secret.len() as int] == '\n');
        assert forall|j: int| 0 <= j < secret.len() implies p[j] != '\n' by {
            if p[j] == '\n' {
                assert(secret[j] == '\n');
                assert(secret.contains('\n'));
            }
        }
        lemma_first_occurrence_unique(p, '\n', secret.len() as int);
        assert(first_line(p) =~= secret);
        assert(after_first_line(p) =~= meta_lines(pairs).drop_first());
    }
}

/// A storable pair's line reads back as exactly that pair.
proof fn lemma_block_parses(p: (Seq<char>, Seq<char>))
    requires
        wf_pair(p),
    ensures
        pair_of_line(p.0 + seq!['='] + p.1) == Some(p),
{
    let l = p.0 + seq!['='] + p.1;
    assert(l[p.0.len() as int] == '=');
    assert forall|j: int| 0 <= j < p.0.len() implies l[j] != '=' by {
        if l[j] == '=' {
            assert(p.0[j] == '=');
            assert(p.0.contains('='));
        }
    }
    lemma_first_occurrence_unique(l, '=', p.0.len() as int);
    assert(l.subrange(0, p.0.len() as int) =~= p.0);
    assert(l.subrange(p.0.len() as int + 1, l.len() as int) =~= p.1);
}

/// Parsing the metadata block of storable pairs yields exactly those pairs.
proof fn lemma_meta_body_parse(pairs: Seq<(Seq<char>, Seq<char>)>)
    requires
        wf_pairs(pairs),
        pairs.len() > 0,
    ensures
        pairs_of_lines(split_lines(meta_lines(pairs).drop_first())) == pairs,
    decreases pairs.len(),
{
    lemma_meta_lines_first(pairs);
    let p0 = pairs[0];
    assert(wf_pair(p0));
    let block = p0.0 + seq!['='] + p0.1;
    let body = meta_lines(pairs).drop_first();
    let rest = pairs.drop_first();
    assert(body =~= block + meta_lines(rest));
    assert forall|j: int| 0 <= j < block.len() implies body[j] != '\n' by {
        if body[j] == '\n' {
            if j < p0.0.len() {
                assert(p0.0[j] == '\n');
                assert(p0.0.contains('\n'));
            } else if j > p0.0.len() {
                assert(p0.1[j - p0.0.len() - 1] == '\n');
                assert(p0.1.contains('\n'));
            }
        }
    }
    lemma_block_parses(p0);
    if rest.len() == 0 {
        assert(meta_lines(rest) =~= Seq::<char>::empty());
        assert(body =~= block);
        lemma_first_occurrence_unique(body, '\n', body.len() as int);
        let ls = split_lines(body);
        assert(ls =~= seq![body]);
        assert(pair_of_line(body) == Some(p0));
        assert(ls.drop_first() =~= Seq::<Seq<char>>::empty());
        assert(pairs_of_lines(ls.drop_first()) =~= Seq::<(Seq<char>, Seq<char>)>::empty());
        assert(pairs_of_lines(ls) =~= seq![p0]);
        assert(pairs =~= seq![p0]);
    } else {
        lemma_meta_lines_first(rest);
        assert(meta_lines(rest)[0] == '\n');
        assert(body[block.len() as int] == '\n');
        lemma_first_occurrence_unique(body, '\n', block.len() as int);
        assert(first_line(body) =~= block);
        assert(body.subrange(block.len() as int + 1, body.len() as int) =~= meta_lines(
            rest,
        ).drop_first());
        assert(wf_pairs(rest)) by {
            assert forall|i: int| 0 <= i < rest.len() implies wf_pair(#[trigger] rest[i]) by {
                assert(rest[i] == pairs[i + 1]);
            }
        }
        lemma_meta_body_parse(rest);
        let ls = split_lines(body);
        assert(ls =~= seq![block] + split_lines(meta_lines(rest).drop_first()));
        assert(ls[0] == block);
        assert(ls.drop_first() =~= split_lines(meta_lines(rest).drop_first()));
        assert(pairs_of_lines(ls) =~= seq![p0] + rest);
        assert(pairs =~= seq![p0] + rest);
    }
}

/// The first line of anything is itself newline-free.
pub proof fn lemma_first_line_wf(s: Seq<char>)
    ensures
        wf_secret(first_line(s)),
{
    lemma_first_occurrence_bounds(s, '\n');
    if first_line(s).contains('\n') {
        let w = choose|w: int| 0 <= w < first_line(s).len() && first_line(s)[w] == '\n';
        assert(s[w] == '\n');
    }
}

/// Round trip: for a newline-free secret and storable metadata pairs, the
/// serialized payload's first line is exactly the secret, and the parsed
/// metadata pairs are exactly the pairs given, in order and multiplicity.
pub proof fn lemma_payload_round_trip(secret: Seq<char>, pairs: Seq<(Seq<char>, Seq<char>)>)
    requires
        wf_secret(secret),
        wf_pairs(pairs),
    ensures
        first_line(payload_of(secret, pairs)) == secret,
        parsed_pairs(payload_of(secret, pairs)) == pairs,
{
    lemma_payload_shape(secret, pairs);
    let p = payload_of(secret, pairs);
    if pairs.len() == 0 {
        let ls = split_lines(after_first_line(p));
        assert(first_occurrence(Seq::<char>::empty(), '\n') == 0);
        assert(ls =~= seq![Seq::<char>::empty()]);
        assert(pair_of_line(ls[0]) is None);
        assert(ls.drop_first() =~= Seq::<Seq<char>>::empty());
        assert(pairs_of_lines(ls.drop_first()) =~= Seq::<(Seq<char>, Seq<char>)>::empty());
        assert(parsed_pairs(p) =~= pairs);
    } else {
        lemma_meta_body_parse(pairs);
    }
}

// ---------------------------------------------------------------------------
// Storability checks and the edit rebuild
// ---------------------------------------------------------------------------

/// Whether `s` can be stored as a secret: true exactly when it holds no newline.
pub fn secret_is_storable(s: &str) -> (r: bool)
    ensures
        r == wf_secret(s@),
{
    proof {
        lemma_first_occurrence_bounds(s@, '\n');
    }
    let n = s.unicode_len();
    let i = find_char(s, '\n');
    proof {
        if i < n {
            assert(s@.contains('\n'));
        } else if s@.contains('\n') {
            let w = choose|w: int| 0 <= w < s@.len() && s@[w] == '\n';
            assert(s@[w] != '\n');
        }
    }
    i == n
}

/// Whether a key/value pair can be stored as one metadata line.
pub fn pair_is_storable(key: &str, value: &str) -> (r: bool)
    ensures
        r == wf_pair((key@, value@)),
{
    proof {
        lemma_first_occurrence_bounds(key@, '=');
        lemma_first_occurrence_bounds(key@, '\n');
        lemma_first_occurrence_bounds(value@, '\n');
    }
    let kn = key.unicode_len();
    let ke = find_char(key, '=');
    let kl = find_char(key, '\n');
    let vn = value.unicode_len();
    let vl = find_char(value, '\n');
    proof {
        if ke < kn {
            assert(key@.contains('='));
        } else if key@.contains('=') {
            let w = choose|w: int| 0 <= w < key@.len() && key@[w] == '=';
            assert(key@[w] != '=');
        }
        if kl < kn {
            assert(key@.contains('\n'));
        } else if key@.contains('\n') {
            let w = choose|w: int| 0 <= w < key@.len() && key@[w] == '\n';
            assert(key@[w] != '\n');
        }
        if vl < vn {
            assert(value@.contains('\n'));
        } else if value@.contains('\n') {
            let w = choose|w: int| 0 <= w < value@.len() && value@[w] == '\n';
            assert(value@[w] != '\n');
        }
    }
    ke == kn && kl == kn && vl == vn
}

pub open spec fn wf_change(c: (Seq<char>, Option<Seq<char>>)) -> bool {
    &&& !c.0.contains('=')
    &&& !c.0.contains('\n')
    &&& match c.1 {
        Some(v) => !v.contains('\n'),
        None => true,
    }
}

pub open spec fn wf_changes(cs: Seq<(Seq<char>, Option<Seq<char>>)>) -> bool {
    forall|i: int| 0 <= i < cs.len() ==> wf_change(#[trigger] cs[i])
}

/// The secret an edit keeps or replaces: the replacement when one is given,
/// else the current payload's first line.
pub open spec fn edited_secret(current: Seq<char>, new_secret: Option<Seq<char>>) -> Seq<char> {
    match new_secret {
        Some(s) => s,
        None => first_line(current),
    }
}

/// Rebuilds a decrypted payload for an edit: the secret is replaced when a
/// new one is given, the remaining lines are read as a mapping (later
/// duplicate keys overwrite earlier ones), the changes are applied (a present
/// value sets or overwrites its key, an absent one deletes it), and the
/// result is serialized again. The metadata line order of the result is the
/// mapping's insertion order, not the original line order.
///
/// Fails exactly when the new secret holds a newline or some change's key
/// holds `=` or a newline or some change's value holds a newline.
pub fn rebuild_payload(
    current: &str,
    new_secret: Option<&str>,
    changes: &Vec<(String, Option<String>)>,
) -> (r: Result<String, Error>)
    ensures
        match r {
            Ok(p) => {
                &&& (new_secret matches Some(ns) ==> wf_secret(ns@))
                &&& wf_changes(changes.deep_view())
                &&& first_line(p@) == edited_secret(
                    current@,
                    match new_secret {
                        Some(ns) => Some(ns@),
                        None => None,
                    },
                )
                &&& map_of_pairs(parsed_pairs(p@)) == apply_changes(
                    map_of_pairs(parsed_pairs(current@)),
                    changes.deep_view(),
                )
                &&& unique_keys(parsed_pairs(p@))
            },
            Err(e) => {
                &&& e.kind == ErrorKind::InsertionError
                &&& !((new_secret matches Some(ns) ==> wf_secret(ns@)) && wf_changes(
                    changes.deep_view(),
                ))
            },
        },
{
    let ghost cs = changes.deep_view();
    let secret: String = match new_secret {
        Some(ns) => {
            if !secret_is_storable(ns) {
                return Err(Error::new(ErrorKind::InsertionError, "secret must not contain a newline"));
            }
            ns.to_owned()
        },
        None => first_line_of(current),
    };
    let mut i: usize = 0;
    while i < changes.len()
        invariant
            0 <= i <= changes.len(),
            cs == changes.deep_view(),
            cs.len() == changes.len(),
            forall|j: int| 0 <= j < changes.len() ==> #[trigger] cs[j] == (
                changes[j].0@,
                match changes[j].1 {
                    Some(v) => Some(v@),
                    None => None,
                },
            ),
            forall|j: int| 0 <= j < i ==> wf_change(#[trigger] cs[j]),
        decreases changes.len() - i,
    {
        let storable = match &changes[i].1 {
            Some(v) => pair_is_storable(changes[i].0.as_str(), v.as_str()),
            None => pair_is_storable(changes[i].0.as_str(), ""),
        };
        if !storable {
            proof {
                reveal_strlit("");
                assert(!wf_change(cs[i as int]));
            }
            return Err(Error::new(
                ErrorKind::InsertionError,
                "metadata keys must not contain '=' or newlines, values no newlines",
            ));
        }
        i = i + 1;
    }
    let parsed = parse_payload_pairs(current);
    let ghost base = parsed.deep_view();
    let ghost base_map = map_of_pairs(base);
    proof {
        lemma_parsed_pairs_wf(current@);
    }
    let mut m = Metadata::new();
    let mut j: usize = 0;
    proof {
        assert(base.take(0) =~= Seq::<(Seq<char>, Seq<char>)>::empty());
    }
    while j < parsed.len()
        invariant
            0 <= j <= parsed.len(),
            base == parsed.deep_view(),
            base.len() == parsed.len(),
            wf_pairs(base),
            forall|x: int| 0 <= x < parsed.len() ==> #[trigger] base[x] == (
                parsed[x].0@,
                parsed[x].1@,
            ),
            m.wf(),
            wf_pairs(m.pairs()),
            m.as_map() == map_of_pairs(base.take(j as int)),
        decreases parsed.len() - j,
    {
        let (k, v) = (parsed[j].0.clone(), parsed[j].1.clone());
        let ghost before = m.pairs();
        m.set(k, v);
        proof {
            let t1 = base.take(j as int + 1);
            assert(t1.drop_last() =~= base.take(j as int));
            assert(t1.last() == base[j as int]);
            assert forall|x: int| 0 <= x < m.pairs().len() implies wf_pair(
                #[trigger] m.pairs()[x],
            ) by {
                if m.pairs()[x] != base[j as int] {
                    let w = choose|w: int|
                        0 <= w < before.len() && m.pairs()[x] == #[trigger] before[w];
                    assert(wf_pair(before[w]));
                }
            }
        }
        j = j + 1;
    }
    proof {
        assert(base.take(parsed.len() as int) =~= base);
        assert(cs.take(0) =~= Seq::<(Seq<char>, Option<Seq<char>>)>::empty());
    }
    let mut c: usize = 0;
    while c < changes.len()
        invariant
            0 <= c <= changes.len(),
            cs == changes.deep_view(),
            cs.len() == changes.len(),
            forall|x: int| 0 <= x < changes.len() ==> #[trigger] cs[x] == (
                changes[x].0@,
                match changes[x].1 {
                    Some(v) => Some(v@),
                    None => None,
                },
            ),
            wf_changes(cs),
            m.wf(),
            wf_pairs(m.pairs()),
            m.as_map() == apply_changes(base_map, cs.take(c as int)),
        decreases changes.len() - c,
    {
        let ghost before = m.pairs();
        match &changes[c].1 {
            Some(v) => {
                m.set(changes[c].0.clone(), v.clone());
            },
            None => {
                m.delete(&changes[c].0);
            },
        }
        proof {
            let t1 = cs.take(c as int + 1);
            assert(t1.drop_last() =~= cs.take(c as int));
            assert(t1.last() == cs[c as int]);
            assert(wf_change(cs[c as int]));
            assert forall|x: int| 0 <= x < m.pairs().len() implies wf_pair(
                #[trigger] m.pairs()[x],
            ) by {
                if m.pairs()[x] != (cs[c as int].0, match cs[c as int].1 {
                    Some(v) => v,
                    None => Seq::<char>::empty(),
                }) {
                    let w = choose|w: int|
                        0 <= w < before.len() && m.pairs()[x] == #[trigger] before[w];
                    assert(wf_pair(before[w]));
                }
            }
        }
        c = c + 1;
    }
    proof {
        assert(cs.take(changes.len() as int) =~= cs);
    }
    let ghost final_pairs = m.pairs();
    let entries = m.into_entries();
    let out = serialize_payload(secret.as_str(), &entries);
    proof {
        assert(wf_secret(secret@)) by {
            if new_secret is None {
                lemma_first_line_wf(current@);
            }
        }
        lemma_payload_round_trip(secret@, final_pairs);
        assert(parsed_pairs(out@) == final_pairs);
    }
    Ok(out)
}

/// Law: when some change deletes key `k` and no later change reintroduces
/// it, the edited mapping no longer holds `k`.
pub proof fn lemma_deletion_removes_key(
    m: Map<Seq<char>, Seq<char>>,
    cs: Seq<(Seq<char>, Option<Seq<char>>)>,
    d: int,
)
    requires
        0 <= d < cs.len(),
        cs[d].1 is None,
        forall|j: int| d < j < cs.len() ==> (#[trigger] cs[j]).0 != cs[d].0,
    ensures
        !apply_changes(m, cs).contains_key(cs[d].0),
    decreases cs.len(),
{
    if d == cs.len() - 1 {
    } else {
        lemma_deletion_removes_key(m, cs.drop_last(), d);
        assert(cs.drop_last()[d] == cs[d]);
        assert(cs.last().0 != cs[d].0);
    }
}

/// Law: after an edit whose changes delete key `k` (with no later change
/// reintroducing it), the rebuilt payload holds no metadata pair for `k`: a
/// subsequent full read cannot show `k`.
pub proof fn lemma_edit_deletion_removes_key(
    current: Seq<char>,
    rebuilt: Seq<char>,
    cs: Seq<(Seq<char>, Option<Seq<char>>)>,
    d: int,
)
    requires
        0 <= d < cs.len(),
        cs[d].1 is None,
        forall|j: int| d < j < cs.len() ==> (#[trigger] cs[j]).0 != cs[d].0,
        map_of_pairs(parsed_pairs(rebuilt)) == apply_changes(
            map_of_pairs(parsed_pairs(current)),
            cs,
        ),
    ensures
        forall|i: int|
            0 <= i < parsed_pairs(rebuilt).len() ==> (#[trigger] parsed_pairs(rebuilt)[i]).0
                != cs[d].0,
{
    lemma_deletion_removes_key(map_of_pairs(parsed_pairs(current)), cs, d);
    lemma_map_of_pairs_domain(parsed_pairs(rebuilt), cs[d].0);
}

} // verus!
