use vstd::prelude::*;
use vstd::multiset::Multiset;
use vstd::seq_lib::{to_multiset_build, to_multiset_insert};
use vstd::utf8::{encode_utf8, encode_utf8_decode_utf8};
use crate::entry::{models, EntryModel, TodoEntry};

verus! {

/// Lexicographic comparison of byte strings: negative, zero or positive as
/// `a` comes before, equals or comes after `b`.
pub open spec fn lex_cmp(a: Seq<u8>, b: Seq<u8>) -> int
    decreases a.len(),
{
    if a.len() == 0 {
        if b.len() == 0 {
            0
        } else {
            -1
        }
    } else if b.len() == 0 {
        1
    } else if a[0] < b[0] {
        -1
    } else if a[0] > b[0] {
        1
    } else {
        lex_cmp(a.drop_first(), b.drop_first())
    }
}

/// The UTF-8 bytes of an entry's file path, by which entries are ordered.
pub open spec fn path_key(e: EntryModel) -> Seq<u8> {
    encode_utf8(e.file_path)
}

/// Whether entry `x` may come before entry `y`: its path is smaller, byte by
/// byte, or the paths are equal and its line number is not larger.
pub open spec fn entry_le(x: EntryModel, y: EntryModel) -> bool {
    let c = lex_cmp(path_key(x), path_key(y));
    c < 0 || (c == 0 && x.line_number <= y.line_number)
}

/// Whether `s` is ordered by file path, then line number.
pub open spec fn sorted_by_location(s: Seq<EntryModel>) -> bool {
    forall|i: int, j: int| 0 <= i < j < s.len() ==> entry_le(#[trigger] s[i], #[trigger] s[j])
}

/// Whether no two entries of `s` name the same file and line.
pub open spec fn unique_locations(s: Seq<EntryModel>) -> bool {
    forall|i: int, j: int|
        0 <= i < s.len() && 0 <= j < s.len() && i != j ==> (#[trigger] s[i]).file_path != (
        #[trigger] s[j]).file_path || s[i].line_number != s[j].line_number
}

proof fn lemma_lex_antisymmetric(a: Seq<u8>, b: Seq<u8>)
    ensures
        lex_cmp(a, b) == -lex_cmp(b, a),
        lex_cmp(a, b) == 0 <==> a == b,
        -1 <= lex_cmp(a, b) <= 1,
    decreases a.len(),
{
    if a.len() > 0 && b.len() > 0 && a[0] == b[0] {
        lemma_lex_antisymmetric(a.drop_first(), b.drop_first());
        if a.drop_first() == b.drop_first() {
            assert(a =~= seq![a[0]] + a.drop_first());
            assert(b =~= seq![b[0]] + b.drop_first());
        }
    }
    if a.len() == 0 && b.len() == 0 {
        assert(a =~= b);
    }
}

proof fn lemma_lex_transitive(a: Seq<u8>, b: Seq<u8>, c: Seq<u8>)
    requires
        lex_cmp(a, b) <= 0,
        lex_cmp(b, c) <= 0,
    ensures
        lex_cmp(a, c) <= 0,
        lex_cmp(a, b) < 0 || lex_cmp(b, c) < 0 ==> lex_cmp(a, c) < 0,
    decreases a.len(),
{
    lemma_lex_antisymmetric(a, b);
    lemma_lex_antisymmetric(b, c);
    lemma_lex_antisymmetric(a, c);
    if a.len() > 0 && b.len() > 0 && c.len() > 0 && a[0] == b[0] && b[0] == c[0] {
        lemma_lex_transitive(a.drop_first(), b.drop_first(), c.drop_first());
    }
}

proof fn lemma_entry_le_total(x: EntryModel, y: EntryModel)
    ensures
        entry_le(x, y) || entry_le(y, x),
        entry_le(x, y) && entry_le(y, x) ==> x.file_path == y.file_path && x.line_number
            == y.line_number,
{
    lemma_lex_antisymmetric(path_key(x), path_key(y));
    if path_key(x) == path_key(y) {
        encode_utf8_decode_utf8(x.file_path);
        encode_utf8_decode_utf8(y.file_path);
    }
}

proof fn lemma_entry_le_transitive(x: EntryModel, y: EntryModel, z: EntryModel)
    requires
        entry_le(x, y),
        entry_le(y, z),
    ensures
        entry_le(x, z),
{
    lemma_lex_antisymmetric(path_key(x), path_key(y));
    lemma_lex_antisymmetric(path_key(y), path_key(z));
    lemma_lex_transitive(path_key(x), path_key(y), path_key(z));
}

/// Compares two texts by their UTF-8 bytes.
fn compare_paths(a: &str, b: &str) -> (r: i8)
    ensures
        r as int == lex_cmp(encode_utf8(a@), encode_utf8(b@)),
{
    let x = a.as_bytes();
    let y = b.as_bytes();
    let mut i: usize = 0;
    assert(x@.subrange(0, x@.len() as int) =~= x@);
    assert(y@.subrange(0, y@.len() as int) =~= y@);
    while i < x.len() && i < y.len()
        invariant
            x@ == encode_utf8(a@),
            y@ == encode_utf8(b@),
            i <= x@.len(),
            i <= y@.len(),
            lex_cmp(x@, y@) == lex_cmp(
                x@.subrange(i as int, x@.len() as int),
                y@.subrange(i as int, y@.len() as int),
            ),
        decreases x@.len() - i,
    {
        if x[i] < y[i] {
            return -1;
        }
        if x[i] > y[i] {
            return 1;
        }
        assert(x@.subrange(i as int, x@.len() as int).drop_first() =~= x@.subrange(
            i + 1,
            x@.len() as int,
        ));
        assert(y@.subrange(i as int, y@.len() as int).drop_first() =~= y@.subrange(
            i + 1,
            y@.len() as int,
        ));
        i = i + 1;
    }
    if i == x.len() && i == y.len() {
        0
    } else if i == x.len() {
        -1
    } else {
        1
    }
}

/// Whether entry `a` may come before entry `b` in a scan's result.
pub fn entry_before_or_equal(a: &TodoEntry, b: &TodoEntry) -> (r: bool)
    ensures
        r == entry_le(a@, b@),
{
    let c = compare_paths(a.file_path.as_str(), b.file_path.as_str());
    c < 0 || (c == 0 && a.line_number <= b.line_number)
}

/// The position after every entry of `sorted` that may come before `e`.
fn upper_bound(sorted: &Vec<TodoEntry>, e: &TodoEntry) -> (r: usize)
    requires
        sorted_by_location(models(sorted@)),
    ensures
        r <= sorted@.len(),
        forall|k: int| 0 <= k < r ==> entry_le(#[trigger] sorted@[k]@, e@),
        forall|k: int| r <= k < sorted@.len() ==> !entry_le(#[trigger] sorted@[k]@, e@),
{
    let ghost m = models(sorted@);
    let mut lo: usize = 0;
    let mut hi: usize = sorted.len();
    while lo < hi
        invariant
            m == models(sorted@),
            sorted_by_location(m),
            lo <= hi <= sorted@.len(),
            forall|k: int| 0 <= k < lo ==> entry_le(#[trigger] sorted@[k]@, e@),
            forall|k: int| hi <= k < sorted@.len() ==> !entry_le(#[trigger] sorted@[k]@, e@),
        decreases hi - lo,
    {
        let mid = lo + (hi - lo) / 2;
        if entry_before_or_equal(&sorted[mid], e) {
            assert forall|k: int| 0 <= k < mid + 1 implies entry_le(#[trigger] sorted@[k]@, e@) by {
                if k < mid {
                    assert(entry_le(m[k], m[mid as int]));
                    lemma_entry_le_transitive(m[k], m[mid as int], e@);
                }
            }
            lo = mid + 1;
        } else {
            assert forall|k: int| mid <= k < sorted@.len() implies !entry_le(
                #[trigger] sorted@[k]@,
                e@,
            ) by {
                if k > mid && entry_le(sorted@[k]@, e@) {
                    assert(entry_le(m[mid as int], m[k]));
                    lemma_entry_le_transitive(m[mid as int], m[k], e@);
                }
            }
            hi = mid;
        }
    }
    lo
}

/// Whether an entry names the file and line of `x`.
pub open spec fn at_location_of(x: EntryModel) -> spec_fn(TodoEntry) -> bool {
    |y: TodoEntry| y@.file_path == x.file_path && y@.line_number == x.line_number
}

proof fn lemma_filter_push(s: Seq<TodoEntry>, e: TodoEntry, p: spec_fn(TodoEntry) -> bool)
    ensures
        s.push(e).filter(p) == if p(e) {
            s.filter(p).push(e)
        } else {
            s.filter(p)
        },
{
    reveal(Seq::filter);
    assert(s.push(e).drop_last() =~= s);
}

/// Inserting `e` after every entry that may come before it puts `e` last
/// among the entries at its location.
proof fn lemma_filter_insert(out: Seq<TodoEntry>, pos: int, e: TodoEntry, x: EntryModel)
    requires
        0 <= pos <= out.len(),
        forall|k: int| pos <= k < out.len() ==> !entry_le(#[trigger] out[k]@, e@),
    ensures
        out.insert(pos, e).filter(at_location_of(x)) == if at_location_of(x)(e) {
            out.filter(at_location_of(x)).push(e)
        } else {
            out.filter(at_location_of(x))
        },
{
    broadcast use Seq::filter_distributes_over_add;

    let p = at_location_of(x);
    let left = out.subrange(0, pos);
    let right = out.subrange(pos, out.len() as int);
    assert(out =~= left + right);
    assert(out.insert(pos, e) =~= left + seq![e] + right);
    lemma_filter_push(Seq::empty(), e, p);
    assert(Seq::<TodoEntry>::empty().push(e) =~= seq![e]);
    reveal(Seq::filter);
    assert(Seq::<TodoEntry>::empty().filter(p) =~= Seq::<TodoEntry>::empty());
    if p(e) {
        if right.filter(p).len() > 0 {
            let y = right.filter(p)[0];
            right.lemma_filter_pred(p, 0);
            assert(right.filter(p).contains(y));
            right.lemma_filter_contains_rev(p, y);
            let k = choose|k: int| 0 <= k < right.len() && right[k] == y;
            assert(out[pos + k] == y);
            lemma_lex_antisymmetric(path_key(y@), path_key(e@));
        }
        assert(right.filter(p) =~= Seq::<TodoEntry>::empty());
        assert(out.insert(pos, e).filter(p) =~= out.filter(p).push(e));
    } else {
        assert(out.insert(pos, e).filter(p) =~= out.filter(p));
    }
}

/// Orders the entries of a scan by file path, then line number. Entries at
/// the same location keep the order in which they were found.
pub fn sort_entries(entries: Vec<TodoEntry>) -> (r: Vec<TodoEntry>)
    ensures
        sorted_by_location(models(r@)),
        r@.to_multiset() == entries@.to_multiset(),
        forall|x: EntryModel| #[trigger] r@.filter(at_location_of(x)) == entries@.filter(
            at_location_of(x),
        ),
{
    broadcast use vstd::multiset::group_multiset_axioms, vstd::seq_lib::group_to_multiset_ensures;

    let ghost all = entries@.to_multiset();
    let ghost input = entries@;
    let ghost n = entries@.len();
    let mut source = entries;
    let mut pending: Vec<TodoEntry> = Vec::new();
    assert(pending@.to_multiset().len() == 0);
    assert(pending@.to_multiset() =~= Multiset::empty());
    assert(source@.to_multiset().add(pending@.to_multiset()) =~= all);
    while source.len() > 0
        invariant
            source@.to_multiset().add(pending@.to_multiset()) == all,
            n == input.len(),
            source@.len() + pending@.len() == n,
            source@ == input.subrange(0, source@.len() as int),
            forall|i: int| 0 <= i < pending@.len() ==> #[trigger] pending@[i] == input[n - 1 - i],
        decreases source@.len(),
    {
        let ghost before = source@;
        let ghost old_pending = pending@;
        let e = source.pop().unwrap();
        assert(before =~= source@.push(e));
        pending.push(e);
        assert(pending@ =~= old_pending.push(e));
        proof {
            to_multiset_build(source@, e);
            to_multiset_build(old_pending, e);
        }
        assert(source@.to_multiset().add(pending@.to_multiset()) =~= before.to_multiset().add(
            old_pending.to_multiset(),
        ));
        assert(source@ =~= input.subrange(0, source@.len() as int));
    }
    assert(source@.to_multiset().len() == 0);
    assert(source@.to_multiset() =~= Multiset::empty());
    let mut out: Vec<TodoEntry> = Vec::new();
    assert(out@.to_multiset().len() == 0);
    assert(out@.to_multiset() =~= Multiset::empty());
    assert(out@.to_multiset().add(pending@.to_multiset()) =~= all);
    assert forall|x: EntryModel| #[trigger] out@.filter(at_location_of(x)) == input.subrange(
        0,
        0,
    ).filter(at_location_of(x)) by {
        reveal(Seq::filter);
        assert(input.subrange(0, 0) =~= out@);
    }
    while pending.len() > 0
        invariant
            sorted_by_location(models(out@)),
            out@.to_multiset().add(pending@.to_multiset()) == all,
            n == input.len(),
            pending@.len() <= n,
            forall|i: int| 0 <= i < pending@.len() ==> #[trigger] pending@[i] == input[n - 1 - i],
            forall|x: EntryModel| #[trigger] out@.filter(at_location_of(x)) == input.subrange(
                0,
                n - pending@.len(),
            ).filter(at_location_of(x)),
        decreases pending@.len(),
    {
        let ghost before = pending@;
        let e = pending.pop().unwrap();
        assert(before =~= pending@.push(e));
        let pos = upper_bound(&out, &e);
        let ghost old_out = out@;
        let ghost m = models(old_out);
        out.insert(pos, e);
        proof {
            old_out.insert_ensures(pos as int, e);
            assert(out@ =~= old_out.insert(pos as int, e));
            to_multiset_insert(old_out, pos as int, e);
            to_multiset_build(pending@, e);
            assert(out@.to_multiset().add(pending@.to_multiset()) =~= old_out.to_multiset().add(
                before.to_multiset(),
            ));
            let c = n - before.len();
            assert(e == before[before.len() - 1]);
            assert(e == input[c]);
            assert(input.subrange(0, c + 1) =~= input.subrange(0, c).push(e));
            assert forall|x: EntryModel| #[trigger] out@.filter(at_location_of(x))
                == input.subrange(0, n - pending@.len()).filter(at_location_of(x)) by {
                lemma_filter_insert(old_out, pos as int, e, x);
                lemma_filter_push(input.subrange(0, c), e, at_location_of(x));
                assert(old_out.filter(at_location_of(x)) == input.subrange(0, c).filter(
                    at_location_of(x),
                ));
            }
            let nm = models(out@);
            assert(nm =~= m.insert(pos as int, e@));
            assert forall|i: int, j: int| 0 <= i < j < nm.len() implies entry_le(
                #[trigger] nm[i],
                #[trigger] nm[j],
            ) by {
                if j < pos {
                } else if j == pos {
                    assert(entry_le(old_out[i]@, e@));
                } else if i < pos {
                    assert(nm[j] == m[j - 1]);
                } else if i == pos {
                    assert(!entry_le(old_out[j - 1]@, e@));
                    lemma_entry_le_total(old_out[j - 1]@, e@);
                } else {
                    assert(nm[i] == m[i - 1]);
                    assert(nm[j] == m[j - 1]);
                }
            }
        }
    }
    assert(pending@.to_multiset().len() == 0);
    assert(pending@.to_multiset() =~= Multiset::empty());
    assert(out@.to_multiset() =~= out@.to_multiset().add(pending@.to_multiset()));
    assert(input.subrange(0, n as int) =~= input);
    out
}

/// Whether entries of `m` at the same location are the same entry.
pub open spec fn locations_determine(m: Multiset<TodoEntry>) -> bool {
    forall|a: TodoEntry, b: TodoEntry|
        #![trigger m.count(a), m.count(b)]
        m.count(a) > 0 && m.count(b) > 0 && a@.file_path == b@.file_path && a@.line_number
            == b@.line_number ==> a == b
}

proof fn lemma_unique_locations_determine(s: Seq<TodoEntry>)
    requires
        unique_locations(models(s)),
    ensures
        locations_determine(s.to_multiset()),
{
    broadcast use vstd::seq_lib::group_to_multiset_ensures;

    assert forall|a: TodoEntry, b: TodoEntry|
        #![trigger s.to_multiset().count(a), s.to_multiset().count(b)]
        s.to_multiset().count(a) > 0 && s.to_multiset().count(b) > 0 && a@.file_path
            == b@.file_path && a@.line_number == b@.line_number implies a == b by {
        assert(s.contains(a));
        assert(s.contains(b));
        let i = choose|i: int| 0 <= i < s.len() && s[i] == a;
        let j = choose|j: int| 0 <= j < s.len() && s[j] == b;
        if i != j {
            assert(models(s)[i] == s[i]@);
            assert(models(s)[j] == s[j]@);
        }
    }
}

proof fn lemma_entry_le_reflexive(x: EntryModel)
    ensures
        entry_le(x, x),
{
    lemma_lex_antisymmetric(path_key(x), path_key(x));
}

proof fn lemma_sorted_same_entries_equal(ra: Seq<TodoEntry>, rb: Seq<TodoEntry>)
    requires
        ra.to_multiset() == rb.to_multiset(),
        locations_determine(ra.to_multiset()),
        sorted_by_location(models(ra)),
        sorted_by_location(models(rb)),
    ensures
        ra == rb,
    decreases ra.len(),
{
    broadcast use vstd::seq_lib::group_to_multiset_ensures, vstd::multiset::group_multiset_axioms;

    if ra.len() == 0 {
        assert(rb.len() == 0);
        assert(ra =~= rb);
        return;
    }
    let x = ra[0];
    assert(ra.to_multiset().len() == ra.len());
    assert(rb.to_multiset().len() == rb.len());
    assert(rb.len() > 0);
    let y = rb[0];
    assert(ra.contains(x));
    assert(rb.to_multiset().count(x) > 0);
    assert(rb.contains(x));
    let j = choose|j: int| 0 <= j < rb.len() && rb[j] == x;
    assert(rb.contains(y));
    assert(ra.to_multiset().count(y) > 0);
    assert(ra.contains(y));
    let i = choose|i: int| 0 <= i < ra.len() && ra[i] == y;
    assert(models(ra)[0] == x@);
    assert(models(rb)[0] == y@);
    if i > 0 {
        assert(models(ra)[i] == y@);
        assert(entry_le(x@, y@));
    } else {
        lemma_entry_le_reflexive(x@);
    }
    if j > 0 {
        assert(models(rb)[j] == x@);
        assert(entry_le(y@, x@));
    } else {
        lemma_entry_le_reflexive(y@);
    }
    lemma_entry_le_total(x@, y@);
    assert(x == y);
    let ta = ra.drop_first();
    let tb = rb.drop_first();
    assert(ta =~= ra.remove(0));
    assert(tb =~= rb.remove(0));
    assert(ta.to_multiset() == ra.to_multiset().remove(x));
    assert(tb.to_multiset() == rb.to_multiset().remove(y));
    assert forall|a: TodoEntry, b: TodoEntry|
        #![trigger ta.to_multiset().count(a), ta.to_multiset().count(b)]
        ta.to_multiset().count(a) > 0 && ta.to_multiset().count(b) > 0 && a@.file_path
            == b@.file_path && a@.line_number == b@.line_number implies a == b by {
        assert(ra.to_multiset().count(a) > 0);
        assert(ra.to_multiset().count(b) > 0);
    }
    assert forall|p: int, q: int| 0 <= p < q < models(ta).len() implies entry_le(
        #[trigger] models(ta)[p],
        #[trigger] models(ta)[q],
    ) by {
        assert(models(ta)[p] == models(ra)[p + 1]);
        assert(models(ta)[q] == models(ra)[q + 1]);
    }
    assert forall|p: int, q: int| 0 <= p < q < models(tb).len() implies entry_le(
        #[trigger] models(tb)[p],
        #[trigger] models(tb)[q],
    ) by {
        assert(models(tb)[p] == models(rb)[p + 1]);
        assert(models(tb)[q] == models(rb)[q + 1]);
    }
    lemma_sorted_same_entries_equal(ta, tb);
    assert(ra =~= seq![x] + ta);
    assert(rb =~= seq![y] + tb);
}

/// The result of a scan does not depend on the order in which its files were
/// found: when two runs find the same entries, in any order, and no file and
/// line is found twice, the two results ordered by location are the same
/// sequence.
pub proof fn lemma_result_independent_of_enumeration(
    found_a: Seq<TodoEntry>,
    found_b: Seq<TodoEntry>,
    result_a: Seq<TodoEntry>,
    result_b: Seq<TodoEntry>,
)
    requires
        found_a.to_multiset() == found_b.to_multiset(),
        unique_locations(models(found_a)),
        sorted_by_location(models(result_a)),
        result_a.to_multiset() == found_a.to_multiset(),
        sorted_by_location(models(result_b)),
        result_b.to_multiset() == found_b.to_multiset(),
    ensures
        result_a == result_b,
{
    lemma_unique_locations_determine(found_a);
    lemma_sorted_same_entries_equal(result_a, result_b);
}

} // verus!
