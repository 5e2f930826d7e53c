//! The hash join: equi-join pairs, the residual condition, and the build
//! and probe phases.

use std::collections::HashMap;
use vstd::prelude::*;
use vstd::std_specs::hash::group_hash_axioms;
use vstd::utf8::encode_utf8;
use crate::lemmas::lemma_filter_step;
use crate::lemmas::lemma_filter_twice;
use crate::model::Datum;
use crate::model::Row;
use crate::model::equi_pairs;
use crate::model::joined;
use crate::model::keyed;
use crate::model::left_key;
use crate::model::pairs_view;
use crate::model::pairs_within;
use crate::model::probe;
use crate::model::residual;
use crate::model::right_key;
use crate::model::suffixed;
use crate::table::Schema;
use crate::types::Condition;
use crate::types::Entry;
use crate::types::Value;
use crate::types::clone_entry;
use crate::types::entries_view;
use crate::types::entry_view;

verus! {

broadcast use group_hash_axioms;

/// One step of the hash: the state so far and the next word.
pub closed spec fn mix(h: u64, x: u64) -> u64 {
    h.wrapping_mul(1099511628211u64).wrapping_add(x)
}

/// The hash of a sequence of bytes.
pub closed spec fn bytes_hash(bytes: Seq<u8>) -> u64
    decreases bytes.len(),
{
    if bytes.len() == 0 {
        14695981039346656037u64
    } else {
        mix(bytes_hash(bytes.drop_last()), bytes.last() as u64)
    }
}

/// The hash of one cell.
pub closed spec fn datum_hash(d: Datum) -> u64 {
    match d {
        Datum::Int(i) => if i >= 0 {
            i as u64
        } else {
            mix(1u64, (-(i + 1)) as u64)
        },
        Datum::Text(s) => bytes_hash(encode_utf8(s)),
        Datum::Column(s) => bytes_hash(encode_utf8(s)),
    }
}

/// The hash of a composite key. Equal keys have equal hashes; nothing else
/// is asked of it.
pub closed spec fn key_hash(key: Seq<Datum>) -> u64
    decreases key.len(),
{
    if key.len() == 0 {
        0u64
    } else {
        mix(key_hash(key.drop_last()), datum_hash(key.last()))
    }
}

/// The predicate "the key of the left row has the hash `h`".
pub open spec fn hashed(h: u64, pairs: Seq<(int, int)>) -> spec_fn(Row) -> bool {
    |l: Row| key_hash(left_key(l, pairs)) == h
}

/// The rows of the bucket with hash `h`.
pub open spec fn bucket_rows(buckets: Map<u64, Vec<Entry>>, h: u64) -> Seq<Row> {
    if buckets.contains_key(h) {
        entries_view(buckets[h]@)
    } else {
        Seq::empty()
    }
}

fn mix_exec(h: u64, x: u64) -> (r: u64)
    ensures
        r == mix(h, x),
{
    h.wrapping_mul(1099511628211u64).wrapping_add(x)
}

fn text_hash(s: &String) -> (h: u64)
    ensures
        h == bytes_hash(encode_utf8(s@)),
{
    let bytes = s.as_str().as_bytes();
    let mut h: u64 = 14695981039346656037u64;
    let mut i: usize = 0;
    while i < bytes.len()
        invariant
            0 <= i <= bytes.len(),
            bytes@ == encode_utf8(s@),
            h == bytes_hash(bytes@.take(i as int)),
        decreases bytes.len() - i,
    {
        proof {
            assert(bytes@.take(i + 1).drop_last() =~= bytes@.take(i as int));
        }
        h = mix_exec(h, bytes[i] as u64);
        i += 1;
    }
    proof {
        assert(bytes@.take(bytes.len() as int) =~= bytes@);
    }
    h
}

fn value_hash(v: &Value) -> (h: u64)
    ensures
        h == datum_hash(v@),
{
    match v {
        Value::Int(i) => if *i >= 0 {
            *i as u64
        } else {
            mix_exec(1u64, (-(*i + 1)) as u64)
        },
        Value::Str(s) => text_hash(s),
        Value::Column(s) => text_hash(s),
    }
}

/// The key of a row on one side of the join.
pub open spec fn side_key(row: Row, pairs: Seq<(int, int)>, right: bool) -> Seq<Datum> {
    if right {
        right_key(row, pairs)
    } else {
        left_key(row, pairs)
    }
}

/// The hash of the composite key of a left or of a right row.
fn key_hash_of(entry: &Entry, pairs: &Vec<(usize, usize)>, right: bool) -> (h: u64)
    requires
        forall|k: int|
            0 <= k < pairs@.len() ==> (if right {
                (#[trigger] pairs@[k]).1
            } else {
                pairs@[k].0
            }) < entry@.len(),
    ensures
        h == key_hash(side_key(entry_view(entry@), pairs_view(pairs@), right)),
{
    let ghost key = side_key(entry_view(entry@), pairs_view(pairs@), right);
    let mut h: u64 = 0u64;
    let mut k: usize = 0;
    while k < pairs.len()
        invariant
            0 <= k <= pairs.len(),
            key == side_key(entry_view(entry@), pairs_view(pairs@), right),
            key.len() == pairs@.len(),
            h == key_hash(key.take(k as int)),
            forall|k: int|
                0 <= k < pairs@.len() ==> (if right {
                    (#[trigger] pairs@[k]).1
                } else {
                    pairs@[k].0
                }) < entry@.len(),
        decreases pairs.len() - k,
    {
        let (p, q) = pairs[k];
        proof {
            assert(key.take(k + 1).drop_last() =~= key.take(k as int));
            assert(pairs_view(pairs@)[k as int] == (p as int, q as int));
        }
        let cell = if right {
            &entry[q]
        } else {
            &entry[p]
        };
        h = mix_exec(h, value_hash(cell));
        k += 1;
    }
    proof {
        assert(key.take(key.len() as int) =~= key);
    }
    h
}

/// Whether a left and a right row have the same composite key.
fn keys_equal(left: &Entry, right: &Entry, pairs: &Vec<(usize, usize)>) -> (r: bool)
    requires
        pairs_within(pairs_view(pairs@), left@.len() as nat, right@.len() as nat),
    ensures
        r == (left_key(entry_view(left@), pairs_view(pairs@)) == right_key(
            entry_view(right@),
            pairs_view(pairs@),
        )),
{
    let ghost lk = left_key(entry_view(left@), pairs_view(pairs@));
    let ghost rk = right_key(entry_view(right@), pairs_view(pairs@));
    let mut k: usize = 0;
    while k < pairs.len()
        invariant
            0 <= k <= pairs.len(),
            lk == left_key(entry_view(left@), pairs_view(pairs@)),
            rk == right_key(entry_view(right@), pairs_view(pairs@)),
            pairs_within(pairs_view(pairs@), left@.len() as nat, right@.len() as nat),
            forall|j: int| 0 <= j < k ==> lk[j] == rk[j],
        decreases pairs.len() - k,
    {
        let (p, q) = pairs[k];
        proof {
            assert(pairs_view(pairs@)[k as int] == (p as int, q as int));
        }
        if !crate::equality::same_value(&left[p], &right[q]) {
            assert(lk[k as int] != rk[k as int]);
            return false;
        }
        k += 1;
    }
    proof {
        assert(lk =~= rk);
    }
    true
}

/// Adds to `pairs` the equi-join pairs among the conjuncts of `condition`:
/// a conjunct that equates a column of `left` with a column of `right`, in
/// either order, gives the two positions, the left one first.
pub fn collect_pairs(condition: &Condition, left: &Schema, right: &Schema, pairs: &mut Vec<(usize, usize)>)
    requires
        pairs_within(pairs_view(old(pairs)@), left@.len(), right@.len()),
    ensures
        pairs_view(final(pairs)@) == pairs_view(old(pairs)@) + equi_pairs(condition@, left@, right@),
        pairs_within(pairs_view(final(pairs)@), left@.len(), right@.len()),
    decreases condition,
{
    let ghost before = pairs_view(pairs@);
    match condition {
        Condition::And(a, b) => {
            collect_pairs(a, left, right, pairs);
            collect_pairs(b, left, right, pairs);
            proof {
                assert(pairs_view(pairs@) =~= before + equi_pairs(condition@, left@, right@));
            }
        },
        Condition::Equal(Value::Column(f1), Value::Column(f2)) => {
            match (left.get(f1), right.get(f2)) {
                (Some(p), Some(q)) => {
                    pairs.push((p, q));
                    proof {
                        assert(pairs_view(pairs@) =~= before + seq![(p as int, q as int)]);
                    }
                },
                _ => match (right.get(f1), left.get(f2)) {
                    (Some(q), Some(p)) => {
                        pairs.push((p, q));
                        proof {
                            assert(pairs_view(pairs@) =~= before + seq![(p as int, q as int)]);
                        }
                    },
                    _ => {
                        proof {
                            assert(pairs_view(pairs@) =~= before + Seq::<(int, int)>::empty());
                        }
                    },
                },
            }
        },
        _ => {
            proof {
                assert(pairs_view(pairs@) =~= before + Seq::<(int, int)>::empty());
            }
        },
    }
}

/// The residual condition: `condition` with every equi-join conjunct
/// replaced by the condition that always holds.
pub fn residual_condition(condition: &Condition, left: &Schema, right: &Schema) -> (r: Condition)
    ensures
        r@ == residual(condition@, left@, right@),
    decreases condition,
{
    match condition {
        Condition::And(a, b) => Condition::And(
            Box::new(residual_condition(a, left, right)),
            Box::new(residual_condition(b, left, right)),
        ),
        Condition::Equal(Value::Column(f1), Value::Column(f2)) => {
            if (left.contains_key(f1) && right.contains_key(f2)) || (right.contains_key(f1)
                && left.contains_key(f2)) {
                Condition::True
            } else {
                condition.clone()
            }
        },
        _ => condition.clone(),
    }
}

/// Build phase: every left row goes to the bucket of its key's hash; a
/// bucket keeps its rows in the order of the table.
fn build_buckets(entries: Vec<Entry>, pairs: &Vec<(usize, usize)>, Ghost(width): Ghost<nat>) -> (buckets:
    HashMap<u64, Vec<Entry>>)
    requires
        forall|i: int| 0 <= i < entries@.len() ==> (#[trigger] entries@[i])@.len() == width,
        forall|k: int| 0 <= k < pairs@.len() ==> (#[trigger] pairs@[k]).0 < width,
    ensures
        forall|h: u64| #[trigger]
            bucket_rows(buckets@, h) == entries_view(entries@).filter(hashed(h, pairs_view(pairs@))),
{
    let ghost rows = entries_view(entries@);
    let ghost pv = pairs_view(pairs@);
    let mut buckets: HashMap<u64, Vec<Entry>> = HashMap::new();
    proof {
        reveal(Seq::filter);
        assert forall|h: u64| #[trigger]
            bucket_rows(buckets@, h) == rows.take(0).filter(hashed(h, pv)) by {
            assert(rows.take(0).filter(hashed(h, pv)) =~= Seq::<Row>::empty());
        }
    }
    for entry in it: entries
        invariant
            it.seq() == entries@,
            rows == entries_view(entries@),
            pv == pairs_view(pairs@),
            forall|i: int| 0 <= i < entries@.len() ==> (#[trigger] entries@[i])@.len() == width,
            forall|k: int| 0 <= k < pairs@.len() ==> (#[trigger] pairs@[k]).0 < width,
            forall|h: u64| #[trigger]
                bucket_rows(buckets@, h) == rows.take(it.index() as int).filter(hashed(h, pv)),
    {
        let ghost i = it.index() as int;
        let ghost before = buckets@;
        proof {
            assert(entries@[i]@.len() == width);
            assert(rows[i] == entry_view(entry@));
        }
        let h = key_hash_of(&entry, pairs, false);
        let mut bucket = match buckets.remove(&h) {
            Some(b) => b,
            None => Vec::new(),
        };
        let ghost old_bucket = entries_view(bucket@);
        proof {
            assert(old_bucket =~= bucket_rows(before, h));
        }
        bucket.push(entry);
        proof {
            assert(entries_view(bucket@) =~= old_bucket.push(rows[i]));
        }
        buckets.insert(h, bucket);
        proof {
            assert forall|g: u64| #[trigger]
                bucket_rows(buckets@, g) == rows.take(i + 1).filter(hashed(g, pv)) by {
                lemma_filter_step(rows, hashed(g, pv), i);
                assert(bucket_rows(before, g) == rows.take(i).filter(hashed(g, pv)));
                if g != h {
                    assert(bucket_rows(buckets@, g) == bucket_rows(before, g));
                }
            }
        }
    }
    proof {
        assert(rows.take(rows.len() as int) =~= rows);
    }
    buckets
}

/// Probe phase for one right row: every row of its bucket with the same
/// key, followed by the right row, is appended to `out`.
fn probe_bucket(bucket: &Vec<Entry>, right: &Entry, pairs: &Vec<(usize, usize)>, out: &mut Vec<Entry>)
    requires
        forall|i: int|
            0 <= i < bucket@.len() ==> pairs_within(
                pairs_view(pairs@),
                (#[trigger] bucket@[i])@.len() as nat,
                right@.len() as nat,
            ),
    ensures
        entries_view(final(out)@) == entries_view(old(out)@) + entries_view(bucket@).filter(
            keyed(right_key(entry_view(right@), pairs_view(pairs@)), pairs_view(pairs@)),
        ).map_values(suffixed(entry_view(right@))),
{
    let ghost base = entries_view(out@);
    let ghost rows = entries_view(bucket@);
    let ghost pv = pairs_view(pairs@);
    let ghost r = entry_view(right@);
    let ghost same = keyed(right_key(r, pv), pv);
    let mut b: usize = 0;
    proof {
        reveal(Seq::filter);
        assert(rows.take(0).filter(same).map_values(suffixed(r)) =~= Seq::<Row>::empty());
        assert(base + Seq::<Row>::empty() =~= base);
    }
    while b < bucket.len()
        invariant
            0 <= b <= bucket.len(),
            rows == entries_view(bucket@),
            pv == pairs_view(pairs@),
            r == entry_view(right@),
            same == keyed(right_key(r, pv), pv),
            forall|i: int|
                0 <= i < bucket@.len() ==> pairs_within(
                    pairs_view(pairs@),
                    (#[trigger] bucket@[i])@.len() as nat,
                    right@.len() as nat,
                ),
            entries_view(out@) == base + rows.take(b as int).filter(same).map_values(suffixed(r)),
        decreases bucket.len() - b,
    {
        let ghost before = entries_view(out@);
        proof {
            lemma_filter_step(rows, same, b as int);
            assert(rows[b as int] == entry_view(bucket@[b as int]@));
        }
        if keys_equal(&bucket[b], right, pairs) {
            let mut entry = clone_entry(&bucket[b]);
            let mut tail = clone_entry(right);
            entry.append(&mut tail);
            proof {
                assert(entry_view(entry@) =~= rows[b as int] + r);
            }
            out.push(entry);
            proof {
                assert(entries_view(out@) =~= before.push(rows[b as int] + r));
                assert(rows.take(b + 1).filter(same).map_values(suffixed(r)) =~= rows.take(
                    b as int,
                ).filter(same).map_values(suffixed(r)).push(rows[b as int] + r));
            }
        }
        b += 1;
    }
    proof {
        assert(rows.take(rows.len() as int) =~= rows);
    }
}

/// The hash join of the rows of two tables on the given pairs of
/// positions: for every right row, in order, the left rows with the same
/// key, in order, each followed by the right row.
pub(crate) fn hash_join(left: Vec<Entry>, right: &Vec<Entry>, pairs: &Vec<(usize, usize)>, Ghost(a): Ghost<nat>, Ghost(
    b,
): Ghost<nat>) -> (out: Vec<Entry>)
    requires
        forall|i: int| 0 <= i < left@.len() ==> (#[trigger] left@[i])@.len() == a,
        forall|i: int| 0 <= i < right@.len() ==> (#[trigger] right@[i])@.len() == b,
        pairs_within(pairs_view(pairs@), a, b),
    ensures
        entries_view(out@) == joined(entries_view(left@), entries_view(right@), pairs_view(pairs@)),
{
    let ghost rows1 = entries_view(left@);
    let ghost rows2 = entries_view(right@);
    let ghost pv = pairs_view(pairs@);
    proof {
        assert forall|k: int| 0 <= k < pairs@.len() implies (#[trigger] pairs@[k]).0 < a by {
            assert(pv[k] == (pairs@[k].0 as int, pairs@[k].1 as int));
        }
    }
    let buckets = build_buckets(left, pairs, Ghost(a));
    let mut out: Vec<Entry> = Vec::new();
    let mut j: usize = 0;
    proof {
        assert(entries_view(out@) =~= joined(rows1, rows2.take(0), pv));
    }
    while j < right.len()
        invariant
            0 <= j <= right.len(),
            rows1 == entries_view(left@),
            rows2 == entries_view(right@),
            pv == pairs_view(pairs@),
            forall|i: int| 0 <= i < left@.len() ==> (#[trigger] left@[i])@.len() == a,
            forall|i: int| 0 <= i < right@.len() ==> (#[trigger] right@[i])@.len() == b,
            pairs_within(pv, a, b),
            forall|h: u64| #[trigger] bucket_rows(buckets@, h) == rows1.filter(hashed(h, pv)),
            entries_view(out@) == joined(rows1, rows2.take(j as int), pv),
        decreases right.len() - j,
    {
        let entry2 = &right[j];
        let ghost r = rows2[j as int];
        let ghost before = entries_view(out@);
        proof {
            assert(r == entry_view(entry2@));
            assert(right@[j as int]@.len() == b);
            assert forall|k: int| 0 <= k < pairs@.len() implies (#[trigger] pairs@[k]).1
                < entry2@.len() by {
                assert(pv[k] == (pairs@[k].0 as int, pairs@[k].1 as int));
            }
        }
        let h = key_hash_of(entry2, pairs, true);
        let ghost same = keyed(right_key(r, pv), pv);
        proof {
            assert(bucket_rows(buckets@, h) == rows1.filter(hashed(h, pv)));
            assert forall|x: Row| #[trigger] same(x) == (hashed(h, pv)(x) && same(x)) by {
                if same(x) {
                    assert(left_key(x, pv) == right_key(r, pv));
                }
            }
            lemma_filter_twice(rows1, hashed(h, pv), same, same);
            assert(rows2.take(j + 1).drop_last() =~= rows2.take(j as int));
            assert(rows2.take(j + 1).last() == r);
        }
        match buckets.get(&h) {
            Some(bucket) => {
                proof {
                    assert(entries_view(bucket@) == bucket_rows(buckets@, h));
                    assert forall|i: int| 0 <= i < bucket@.len() implies pairs_within(
                        pv,
                        (#[trigger] bucket@[i])@.len() as nat,
                        entry2@.len() as nat,
                    ) by {
                        crate::lemmas::lemma_filter_member(rows1, hashed(h, pv), i);
                        let row = entries_view(bucket@)[i];
                        let k = choose|k: int| 0 <= k < rows1.len() && rows1[k] == row;
                        assert(left@[k]@.len() == a);
                        assert(rows1[k].len() == a);
                        assert(row.len() == bucket@[i]@.len());
                    }
                }
                probe_bucket(bucket, entry2, pairs, &mut out);
            },
            None => {
                proof {
                    assert(rows1.filter(same) =~= Seq::<Row>::empty());
                    assert(probe(rows1, r, pv) =~= Seq::<Row>::empty());
                    assert(before + Seq::<Row>::empty() =~= before);
                }
            },
        }
        j += 1;
    }
    proof {
        assert(rows2.take(rows2.len() as int) =~= rows2);
    }
    out
}

} // verus!
