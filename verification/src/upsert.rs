//! Upsert semantics.
//!
//! The conflict-target overwrite that a bulk upsert statement performs,
//! as a mathematical function on row sequences: each incoming row
//! overwrites the first row whose key columns match it, or is appended
//! when none does, so the last writer wins per batch.  The laws proved
//! here — in particular that refolding an identical input changes
//! nothing — hold for every table and every incoming sequence.

use vstd::prelude::*;

use crate::schema::{conflict_target_wf, ConflictTarget};
use crate::value::{field_value_eq, AbstractValue, RowRecord};

verus! {

/// Holds when rows `a` and `b` carry equal values in every key column of
/// `key`: the condition under which an upsert overwrites instead of
/// appending.
pub open spec fn key_matches(a: Seq<AbstractValue>, b: Seq<AbstractValue>, key: Seq<int>) -> bool {
    forall|j: int| 0 <= j < key.len() ==> a[#[trigger] key[j]] == b[key[j]]
}

/// The position of the first row of `t` whose key columns match those of
/// `r`, or `-1` when no row matches.
pub open spec fn first_key_match(
    t: Seq<Seq<AbstractValue>>,
    r: Seq<AbstractValue>,
    key: Seq<int>,
) -> int
    decreases t.len(),
{
    if t.len() == 0 {
        -1
    } else if key_matches(t[0], r, key) {
        0
    } else {
        let rest = first_key_match(t.drop_first(), r, key);
        if rest < 0 {
            -1
        } else {
            1 + rest
        }
    }
}

/// What [`first_key_match`] finds: `-1` exactly when no row matches, and
/// otherwise the smallest matching position.
pub proof fn lemma_first_key_match_props(
    t: Seq<Seq<AbstractValue>>,
    r: Seq<AbstractValue>,
    key: Seq<int>,
)
    ensures
        first_key_match(t, r, key) == -1 <==> (forall|p: int|
            0 <= p < t.len() ==> !key_matches(t[p], r, key)),
        first_key_match(t, r, key) != -1 ==> {
            let i = first_key_match(t, r, key);
            &&& 0 <= i < t.len()
            &&& key_matches(t[i], r, key)
            &&& forall|p: int| 0 <= p < i ==> !key_matches(t[p], r, key)
        },
    decreases t.len(),
{
    if t.len() == 0 {
    } else if key_matches(t[0], r, key) {
    } else {
        lemma_first_key_match_props(t.drop_first(), r, key);
        let rest = first_key_match(t.drop_first(), r, key);
        if rest == -1 {
            assert forall|p: int| 0 <= p < t.len() implies !key_matches(t[p], r, key) by {
                if p > 0 {
                    assert(t.drop_first()[p - 1] == t[p]);
                }
            }
        } else {
            assert(t.drop_first()[rest] == t[rest + 1]);
            assert forall|p: int| 0 <= p < rest + 1 implies !key_matches(t[p], r, key) by {
                if p > 0 {
                    assert(t.drop_first()[p - 1] == t[p]);
                }
            }
        }
    }
}

/// One upsert step: overwrite the first row whose key columns match the
/// incoming row, or append the incoming row when no row matches.
pub open spec fn upsert_one(
    t: Seq<Seq<AbstractValue>>,
    r: Seq<AbstractValue>,
    key: Seq<int>,
) -> Seq<Seq<AbstractValue>> {
    let i = first_key_match(t, r, key);
    if i == -1 {
        t.push(r)
    } else {
        t.update(i, r)
    }
}

/// Upserting a row sequence, left to right: later rows with the same key
/// overwrite earlier ones (last writer wins per batch).
pub open spec fn upsert_all(
    t: Seq<Seq<AbstractValue>>,
    rs: Seq<Seq<AbstractValue>>,
    key: Seq<int>,
) -> Seq<Seq<AbstractValue>>
    decreases rs.len(),
{
    if rs.len() == 0 {
        t
    } else {
        upsert_all(upsert_one(t, rs[0], key), rs.drop_first(), key)
    }
}

/// The position of the last row of `rs` whose key columns match those of
/// `r`, or `-1` when no row matches.
pub open spec fn last_key_match(
    rs: Seq<Seq<AbstractValue>>,
    r: Seq<AbstractValue>,
    key: Seq<int>,
) -> int
    decreases rs.len(),
{
    if rs.len() == 0 {
        -1
    } else {
        let rest = last_key_match(rs.drop_first(), r, key);
        if rest != -1 {
            1 + rest
        } else if key_matches(rs[0], r, key) {
            0
        } else {
            -1
        }
    }
}

/// What [`last_key_match`] finds: `-1` exactly when no row matches, and
/// otherwise a matching position.
pub proof fn lemma_last_key_match_props(
    rs: Seq<Seq<AbstractValue>>,
    r: Seq<AbstractValue>,
    key: Seq<int>,
)
    ensures
        last_key_match(rs, r, key) == -1 <==> (forall|p: int|
            0 <= p < rs.len() ==> !key_matches(rs[p], r, key)),
        last_key_match(rs, r, key) != -1 ==> {
            let i = last_key_match(rs, r, key);
            &&& 0 <= i < rs.len()
            &&& key_matches(rs[i], r, key)
        },
    decreases rs.len(),
{
    if rs.len() == 0 {
    } else {
        lemma_last_key_match_props(rs.drop_first(), r, key);
        let rest = last_key_match(rs.drop_first(), r, key);
        if rest != -1 {
            assert(rs.drop_first()[rest] == rs[rest + 1]);
        } else {
            assert forall|p: int| 1 <= p < rs.len() implies !key_matches(rs[p], r, key) by {
                assert(rs.drop_first()[p - 1] == rs[p]);
            }
        }
    }
}

/// Rows with matching keys find the same first match in any table.
pub proof fn lemma_first_key_match_congruent(
    t: Seq<Seq<AbstractValue>>,
    a: Seq<AbstractValue>,
    b: Seq<AbstractValue>,
    key: Seq<int>,
)
    requires
        key_matches(a, b, key),
    ensures
        first_key_match(t, a, key) == first_key_match(t, b, key),
    decreases t.len(),
{
    if t.len() == 0 {
    } else {
        assert(key_matches(t[0], a, key) <==> key_matches(t[0], b, key));
        lemma_first_key_match_congruent(t.drop_first(), a, b, key);
    }
}

/// Rows with matching keys find the same last match in any sequence.
pub proof fn lemma_last_key_match_congruent(
    rs: Seq<Seq<AbstractValue>>,
    a: Seq<AbstractValue>,
    b: Seq<AbstractValue>,
    key: Seq<int>,
)
    requires
        key_matches(a, b, key),
    ensures
        last_key_match(rs, a, key) == last_key_match(rs, b, key),
    decreases rs.len(),
{
    if rs.len() == 0 {
    } else {
        assert(key_matches(rs[0], a, key) <==> key_matches(rs[0], b, key));
        lemma_last_key_match_congruent(rs.drop_first(), a, b, key);
    }
}

/// Holds when `u` and `v` have the same length and matching key columns at
/// every position.
pub open spec fn same_keys(
    u: Seq<Seq<AbstractValue>>,
    v: Seq<Seq<AbstractValue>>,
    key: Seq<int>,
) -> bool {
    &&& u.len() == v.len()
    &&& forall|p: int| 0 <= p < u.len() ==> key_matches(#[trigger] u[p], v[p], key)
}

/// Tables with the same keys at the same positions agree on where any
/// row's first key match lies.
pub proof fn lemma_first_key_match_same_keys(
    u: Seq<Seq<AbstractValue>>,
    v: Seq<Seq<AbstractValue>>,
    r: Seq<AbstractValue>,
    key: Seq<int>,
)
    requires
        same_keys(u, v, key),
    ensures
        first_key_match(u, r, key) == first_key_match(v, r, key),
    decreases u.len(),
{
    if u.len() == 0 {
    } else {
        assert(key_matches(u[0], v[0], key));
        assert(key_matches(u[0], r, key) <==> key_matches(v[0], r, key));
        assert(same_keys(u.drop_first(), v.drop_first(), key)) by {
            assert forall|p: int| 0 <= p < u.drop_first().len() implies key_matches(
                #[trigger] u.drop_first()[p],
                v.drop_first()[p],
                key,
            ) by {
                assert(u.drop_first()[p] == u[p + 1]);
                assert(v.drop_first()[p] == v[p + 1]);
            }
        }
        lemma_first_key_match_same_keys(u.drop_first(), v.drop_first(), r, key);
    }
}

/// Folding one more row onto an upsert sequence applies that row last.
pub proof fn lemma_upsert_all_push(
    t: Seq<Seq<AbstractValue>>,
    rs: Seq<Seq<AbstractValue>>,
    r: Seq<AbstractValue>,
    key: Seq<int>,
)
    ensures
        upsert_all(t, rs.push(r), key) == upsert_one(upsert_all(t, rs, key), r, key),
    decreases rs.len(),
{
    if rs.len() == 0 {
        assert(rs.push(r)[0] == r);
        assert(rs.push(r).drop_first() =~= Seq::<Seq<AbstractValue>>::empty());
        assert(upsert_all(t, rs, key) == t);
        assert(upsert_all(t, rs.push(r), key) == upsert_all(
            upsert_one(t, r, key),
            rs.push(r).drop_first(),
            key,
        ));
        assert(upsert_all(upsert_one(t, r, key), rs.push(r).drop_first(), key) == upsert_one(
            t,
            r,
            key,
        ));
    } else {
        let u0 = upsert_one(t, rs[0], key);
        assert(rs.push(r)[0] == rs[0]);
        assert(rs.push(r).drop_first() =~= rs.drop_first().push(r));
        assert(upsert_all(t, rs.push(r), key) == upsert_all(u0, rs.push(r).drop_first(), key));
        lemma_upsert_all_push(u0, rs.drop_first(), r, key);
        assert(upsert_all(u0, rs.drop_first().push(r), key) == upsert_one(
            upsert_all(u0, rs.drop_first(), key),
            r,
            key,
        ));
        assert(upsert_all(t, rs, key) == upsert_all(u0, rs.drop_first(), key));
    }
}

/// Appending a row moves no existing first key match.
pub proof fn lemma_first_key_match_push(
    t: Seq<Seq<AbstractValue>>,
    appended: Seq<AbstractValue>,
    r: Seq<AbstractValue>,
    key: Seq<int>,
)
    requires
        first_key_match(t, r, key) != -1,
    ensures
        first_key_match(t.push(appended), r, key) == first_key_match(t, r, key),
    decreases t.len(),
{
    if t.len() == 0 {
        assert(false);
    } else {
        assert(t.push(appended)[0] == t[0]);
        if key_matches(t[0], r, key) {
        } else {
            assert(t.push(appended).drop_first() =~= t.drop_first().push(appended));
            lemma_first_key_match_push(t.drop_first(), appended, r, key);
        }
    }
}

/// Appending a row that carries a key not yet present puts that key's
/// first match at the end.
pub proof fn lemma_first_key_match_push_fresh(
    t: Seq<Seq<AbstractValue>>,
    appended: Seq<AbstractValue>,
    r: Seq<AbstractValue>,
    key: Seq<int>,
)
    requires
        first_key_match(t, r, key) == -1,
        key_matches(appended, r, key),
    ensures
        first_key_match(t.push(appended), r, key) == t.len(),
    decreases t.len(),
{
    if t.len() == 0 {
        assert(t.push(appended)[0] == appended);
    } else {
        assert(t.push(appended)[0] == t[0]);
        assert(!key_matches(t[0], r, key));
        assert(t.push(appended).drop_first() =~= t.drop_first().push(appended));
        lemma_first_key_match_push_fresh(t.drop_first(), appended, r, key);
    }
}

/// Holds when position `p` holds the first row of `t` that carries its key.
/// Only such positions are ever overwritten by an upsert.
pub open spec fn is_first_with_key(t: Seq<Seq<AbstractValue>>, p: int, key: Seq<int>) -> bool {
    forall|q: int| 0 <= q < p ==> !key_matches(#[trigger] t[q], t[p], key)
}

/// Holds when some row of `rs` carries the key of row `r`.
pub open spec fn key_hit(rs: Seq<Seq<AbstractValue>>, r: Seq<AbstractValue>, key: Seq<int>) -> bool {
    exists|x: int| 0 <= x < rs.len() && key_matches(#[trigger] rs[x], r, key)
}

/// The shape of a finished upsert fold `upsert_all(t, rs, key)`: existing
/// rows keep their key columns in place and the table only grows; a row of
/// `t` that is not the first with its key, or whose key no incoming row
/// carries, is left untouched; and for every incoming row, the first table
/// row carrying its key holds the last incoming row that carries it (last
/// writer wins).
pub proof fn lemma_upsert_all_shape(
    t: Seq<Seq<AbstractValue>>,
    rs: Seq<Seq<AbstractValue>>,
    key: Seq<int>,
)
    ensures
        upsert_all(t, rs, key).len() >= t.len(),
        forall|p: int|
            0 <= p < t.len() ==> key_matches(#[trigger] upsert_all(t, rs, key)[p], t[p], key),
        forall|p: int|
            0 <= p < t.len() && !is_first_with_key(t, p, key) ==> #[trigger] upsert_all(
                t,
                rs,
                key,
            )[p] == t[p],
        forall|p: int|
            0 <= p < t.len() && !key_hit(rs, t[p], key) ==> #[trigger] upsert_all(t, rs, key)[p]
                == t[p],
        forall|x: int|
            0 <= x < rs.len() ==> first_key_match(upsert_all(t, rs, key), #[trigger] rs[x], key)
                != -1,
        forall|x: int|
            0 <= x < rs.len() ==> upsert_all(t, rs, key)[first_key_match(
                upsert_all(t, rs, key),
                #[trigger] rs[x],
                key,
            )] == rs[last_key_match(rs, rs[x], key)],
    decreases rs.len(),
{
    if rs.len() == 0 {
    } else {
        let r0 = rs[0];
        let rest = rs.drop_first();
        let u0 = upsert_one(t, r0, key);
        let res = upsert_all(t, rs, key);
        assert(res == upsert_all(u0, rest, key));
        lemma_upsert_all_shape(u0, rest, key);
        lemma_first_key_match_props(t, r0, key);
        let i0 = first_key_match(t, r0, key);
        let pos0: int = if i0 == -1 {
            t.len() as int
        } else {
            i0
        };
        assert(u0[pos0] == r0);
        assert(key_matches(u0[pos0], r0, key));
        assert(forall|p: int| 0 <= p < t.len() && p != pos0 ==> #[trigger] u0[p] == t[p]);
        assert(t.len() <= u0.len() <= t.len() + 1);
        // existing keys stay in place through the single step
        assert forall|p: int| 0 <= p < t.len() implies key_matches(
            #[trigger] u0[p],
            t[p],
            key,
        ) by {
            if p == pos0 {
                assert(key_matches(t[pos0], r0, key));
            }
        }
        // prefix keys survive the whole fold
        assert forall|p: int| 0 <= p < t.len() implies key_matches(
            #[trigger] res[p],
            t[p],
            key,
        ) by {
            assert(key_matches(res[p], u0[p], key));
            assert(key_matches(u0[p], t[p], key));
        }
        // a non-first position of t is a non-first position of u0 and stays
        assert forall|p: int| 0 <= p < t.len() && !is_first_with_key(t, p, key) implies #[trigger] res[p]
            == t[p] by {
            let q = choose|q: int| 0 <= q < p && key_matches(#[trigger] t[q], t[p], key);
            if i0 != -1 && p == i0 {
                assert(key_matches(t[q], r0, key));
                assert(false);
            }
            assert(u0[p] == t[p]);
            assert(key_matches(u0[q], t[q], key));
            assert(key_matches(u0[q], u0[p], key));
            assert(!is_first_with_key(u0, p, key));
        }
        // a position whose key no incoming row carries stays
        assert forall|p: int| 0 <= p < t.len() && !key_hit(rs, t[p], key) implies #[trigger] res[p]
            == t[p] by {
            assert(!key_matches(rs[0], t[p], key));
            if i0 != -1 && p == i0 {
                assert(key_matches(rs[0], t[p], key));
                assert(false);
            }
            assert(u0[p] == t[p]);
            assert(!key_hit(rest, u0[p], key)) by {
                if key_hit(rest, u0[p], key) {
                    let y = choose|y: int|
                        0 <= y < rest.len() && key_matches(#[trigger] rest[y], u0[p], key);
                    assert(rs[y + 1] == rest[y]);
                    assert(key_hit(rs, t[p], key));
                }
            }
        }
        // last writer wins, for every incoming row
        assert forall|x: int| 0 <= x < rs.len() implies {
            &&& first_key_match(res, #[trigger] rs[x], key) != -1
            &&& res[first_key_match(res, rs[x], key)] == rs[last_key_match(rs, rs[x], key)]
        } by {
            if x >= 1 {
                assert(rest[x - 1] == rs[x]);
                lemma_last_key_match_props(rest, rs[x], key);
                assert(key_matches(rest[x - 1], rs[x], key));
                assert(last_key_match(rest, rs[x], key) != -1);
                assert(last_key_match(rs, rs[x], key) == 1 + last_key_match(rest, rs[x], key));
                assert(rs[1 + last_key_match(rest, rs[x], key)] == rest[last_key_match(
                    rest,
                    rs[x],
                    key,
                )]);
            } else {
                let lr = last_key_match(rest, r0, key);
                lemma_last_key_match_props(rest, r0, key);
                if lr != -1 {
                    assert(key_matches(rest[lr], r0, key));
                    assert(first_key_match(res, rest[lr], key) != -1);
                    assert(res[first_key_match(res, rest[lr], key)] == rest[last_key_match(
                        rest,
                        rest[lr],
                        key,
                    )]);
                    lemma_first_key_match_congruent(res, r0, rest[lr], key);
                    lemma_last_key_match_congruent(rest, r0, rest[lr], key);
                    assert(last_key_match(rest, rest[lr], key) == lr);
                    assert(last_key_match(rs, r0, key) == 1 + lr);
                    assert(rs[1 + lr] == rest[lr]);
                } else {
                    assert(key_matches(rs[0], r0, key));
                    assert(last_key_match(rs, r0, key) == 0);
                    // pos0 holds r0, is first with its key in u0, and no
                    // remaining row touches it
                    assert(is_first_with_key(u0, pos0, key)) by {
                        assert forall|q: int| 0 <= q < pos0 implies !key_matches(
                            #[trigger] u0[q],
                            u0[pos0],
                            key,
                        ) by {
                            assert(u0[q] == t[q]);
                            assert(!key_matches(t[q], r0, key));
                        }
                    }
                    assert(!key_hit(rest, u0[pos0], key)) by {
                        if key_hit(rest, u0[pos0], key) {
                            let y = choose|y: int|
                                0 <= y < rest.len() && key_matches(#[trigger] rest[y], r0, key);
                            assert(last_key_match(rest, r0, key) != -1);
                        }
                    }
                    assert(res[pos0] == u0[pos0]);
                    lemma_first_key_match_props(res, r0, key);
                    assert(key_matches(res[pos0], r0, key));
                    assert(first_key_match(res, r0, key) != -1);
                    let fp = first_key_match(res, r0, key);
                    assert forall|q: int| 0 <= q < pos0 implies !key_matches(
                        #[trigger] res[q],
                        r0,
                        key,
                    ) by {
                        assert(key_matches(res[q], u0[q], key));
                        assert(u0[q] == t[q]);
                        assert(!key_matches(t[q], r0, key));
                    }
                    assert(fp == pos0);
                }
            }
        }
    }
}

/// A whole upsert fold moves no first key match that already existed:
/// overwrites happen in place and appends only introduce fresh keys.
pub proof fn lemma_first_key_match_upsert_stable(
    t: Seq<Seq<AbstractValue>>,
    rs: Seq<Seq<AbstractValue>>,
    r: Seq<AbstractValue>,
    key: Seq<int>,
)
    requires
        first_key_match(t, r, key) != -1,
    ensures
        first_key_match(upsert_all(t, rs, key), r, key) == first_key_match(t, r, key),
{
    let res = upsert_all(t, rs, key);
    let p = first_key_match(t, r, key);
    lemma_first_key_match_props(t, r, key);
    lemma_upsert_all_shape(t, rs, key);
    lemma_first_key_match_props(res, r, key);
    assert(key_matches(res[p], r, key)) by {
        assert(key_matches(res[p], t[p], key));
        assert(key_matches(t[p], r, key));
    }
    assert forall|q: int| 0 <= q < p implies !key_matches(#[trigger] res[q], r, key) by {
        assert(key_matches(res[q], t[q], key));
        assert(!key_matches(t[q], r, key));
    }
    assert(first_key_match(res, r, key) == p);
}

/// Refolding an upsert sequence onto a table that already reflects it
/// restores that table exactly.  `u` is allowed to differ from `t1` only
/// at first-with-key positions whose key some remaining incoming row still
/// carries — exactly the positions the remaining fold overwrites.
pub proof fn lemma_upsert_refold(
    t1: Seq<Seq<AbstractValue>>,
    u: Seq<Seq<AbstractValue>>,
    rs: Seq<Seq<AbstractValue>>,
    key: Seq<int>,
)
    requires
        same_keys(t1, u, key),
        forall|p: int|
            0 <= p < t1.len() && !is_first_with_key(t1, p, key) ==> #[trigger] u[p] == t1[p],
        forall|p: int| 0 <= p < t1.len() && !key_hit(rs, t1[p], key) ==> #[trigger] u[p] == t1[p],
        forall|x: int| 0 <= x < rs.len() ==> first_key_match(t1, #[trigger] rs[x], key) != -1,
        forall|x: int|
            0 <= x < rs.len() ==> t1[first_key_match(t1, #[trigger] rs[x], key)] == rs[last_key_match(
                rs,
                rs[x],
                key,
            )],
    ensures
        upsert_all(u, rs, key) == t1,
    decreases rs.len(),
{
    if rs.len() == 0 {
        assert forall|p: int| 0 <= p < t1.len() implies u[p] == t1[p] by {
            assert(!key_hit(rs, t1[p], key));
        }
        assert(u =~= t1);
    } else {
        let r0 = rs[0];
        let rest = rs.drop_first();
        lemma_first_key_match_props(t1, r0, key);
        let i0 = first_key_match(t1, r0, key);
        assert(i0 != -1);
        assert(key_matches(t1[i0], r0, key));
        lemma_first_key_match_same_keys(t1, u, r0, key);
        assert(first_key_match(u, r0, key) == i0);
        let u2 = u.update(i0, r0);
        assert(upsert_one(u, r0, key) == u2);
        assert(upsert_all(u, rs, key) == upsert_all(u2, rest, key));
        // i0 holds the first row of t1 with r0's key
        assert(is_first_with_key(t1, i0, key)) by {
            assert forall|q: int| 0 <= q < i0 implies !key_matches(
                #[trigger] t1[q],
                t1[i0],
                key,
            ) by {
                assert(!key_matches(t1[q], r0, key));
            }
        }
        // the hypotheses carry over to the updated table and the rest
        assert(same_keys(t1, u2, key)) by {
            assert forall|p: int| 0 <= p < t1.len() implies key_matches(
                #[trigger] t1[p],
                u2[p],
                key,
            ) by {
                if p == i0 {
                    assert(u2[p] == r0);
                }
            }
        }
        assert forall|p: int| 0 <= p < t1.len() && !is_first_with_key(t1, p, key) implies #[trigger] u2[p]
            == t1[p] by {
            assert(p != i0);
        }
        assert forall|p: int| 0 <= p < t1.len() && !key_hit(rest, t1[p], key) implies #[trigger] u2[p]
            == t1[p] by {
            if p == i0 {
                lemma_last_key_match_props(rest, r0, key);
                assert(last_key_match(rest, r0, key) == -1) by {
                    if last_key_match(rest, r0, key) != -1 {
                        let y = last_key_match(rest, r0, key);
                        assert(key_matches(rest[y], r0, key));
                        assert(key_matches(rest[y], t1[i0], key));
                        assert(key_hit(rest, t1[i0], key));
                    }
                }
                assert(last_key_match(rs, r0, key) == 0);
                assert(t1[i0] == rs[0]);
                assert(u2[i0] == r0);
            } else {
                if key_hit(rs, t1[p], key) {
                    let x = choose|x: int|
                        0 <= x < rs.len() && key_matches(#[trigger] rs[x], t1[p], key);
                    if x >= 1 {
                        assert(rest[x - 1] == rs[x]);
                        assert(key_hit(rest, t1[p], key));
                        assert(false);
                    } else {
                        // only the first incoming row carries this key, so
                        // p lies behind the position it overwrote
                        assert(key_matches(r0, t1[p], key));
                        assert(key_matches(t1[i0], t1[p], key));
                        if is_first_with_key(t1, p, key) {
                            if i0 < p {
                                assert(!key_matches(t1[i0], t1[p], key));
                                assert(false);
                            }
                            if p < i0 {
                                assert(!key_matches(t1[p], r0, key));
                                assert(key_matches(t1[p], t1[i0], key));
                                assert(false);
                            }
                            assert(false);
                        }
                        assert(u[p] == t1[p]);
                    }
                } else {
                    assert(u[p] == t1[p]);
                }
            }
        }
        assert forall|y: int| 0 <= y < rest.len() implies first_key_match(
            t1,
            #[trigger] rest[y],
            key,
        ) != -1 by {
            assert(rs[y + 1] == rest[y]);
        }
        assert forall|y: int| 0 <= y < rest.len() implies t1[first_key_match(
            t1,
            #[trigger] rest[y],
            key,
        )] == rest[last_key_match(rest, rest[y], key)] by {
            assert(rs[y + 1] == rest[y]);
            lemma_last_key_match_props(rest, rest[y], key);
            assert(key_matches(rest[y], rest[y], key));
            assert(last_key_match(rest, rest[y], key) != -1);
            assert(last_key_match(rs, rs[y + 1], key) == 1 + last_key_match(rest, rs[y + 1], key));
            assert(rs[1 + last_key_match(rest, rest[y], key)] == rest[last_key_match(
                rest,
                rest[y],
                key,
            )]);
        }
        lemma_upsert_refold(t1, u2, rest, key);
    }
}

/// Applying one bulk upsert twice with identical input leaves the same
/// logical row set as applying it once: the second pass finds every
/// incoming key already present and overwrites each row with the value it
/// already holds.
pub proof fn lemma_upsert_all_idempotent(
    t: Seq<Seq<AbstractValue>>,
    rs: Seq<Seq<AbstractValue>>,
    key: Seq<int>,
)
    ensures
        upsert_all(upsert_all(t, rs, key), rs, key) == upsert_all(t, rs, key),
{
    let t1 = upsert_all(t, rs, key);
    lemma_upsert_all_shape(t, rs, key);
    lemma_upsert_refold(t1, t1, rs, key);
}

/// Upserting a concatenation is upserting its parts one after the other.
pub proof fn lemma_upsert_all_append(
    t: Seq<Seq<AbstractValue>>,
    a: Seq<Seq<AbstractValue>>,
    b: Seq<Seq<AbstractValue>>,
    key: Seq<int>,
)
    ensures
        upsert_all(t, a + b, key) == upsert_all(upsert_all(t, a, key), b, key),
    decreases b.len(),
{
    if b.len() == 0 {
        assert(a + b =~= a);
    } else {
        let b0 = b.drop_last();
        lemma_upsert_all_append(t, a, b0, key);
        assert(a + b =~= (a + b0).push(b.last()));
        lemma_upsert_all_push(t, a + b0, b.last(), key);
        assert(b =~= b0.push(b.last()));
        lemma_upsert_all_push(upsert_all(t, a, key), b0, b.last(), key);
    }
}

/// Decides whether two rows carry equal values in every key column.
pub fn row_key_matches(a: &RowRecord, b: &RowRecord, key: &ConflictTarget) -> (r: bool)
    requires
        a@.len() == b@.len(),
        conflict_target_wf(key@, a@.len() as int),
    ensures
        r == key_matches(a@, b@, key@),
{
    let kn = key.key_count();
    let mut j: usize = 0;
    while j < kn
        invariant
            kn == key@.len(),
            a@.len() == b@.len(),
            conflict_target_wf(key@, a@.len() as int),
            j <= kn,
            forall|jj: int| 0 <= jj < j ==> a@[#[trigger] key@[jj]] == b@[key@[jj]],
        decreases kn - j,
    {
        let idx = key.key_at(j);
        if !field_value_eq(a.value_at(idx), b.value_at(idx)) {
            proof {
                assert(a@[key@[j as int]] != b@[key@[j as int]]);
            }
            return false;
        }
        j = j + 1;
    }
    true
}

} // verus!
