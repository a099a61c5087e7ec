//! Singly linked lists holding one animation-state record per core.
//!
//! A machine is very unlikely to have more than a handful of processors, so a
//! simple linked structure is accepted by design, trading traversal cost for
//! code simplicity. Order is significant and stable: record `i` always
//! corresponds to core `i`.
use vstd::prelude::*;

verus! {

/// A singly-linked list entry.
#[derive(Debug)]
pub struct Entry<T> {
    pub data: T,
    pub next: Link<T>,
}

/// An optional owning pointer to an [`Entry`].
pub type Link<T> = Option<Box<Entry<T>>>;

/// The ordered sequence of record values a list holds.
pub open spec fn seq_of<T>(l: Link<T>) -> Seq<T>
    decreases l,
{
    match l {
        None => Seq::empty(),
        Some(e) => seq![e.data] + seq_of(e.next),
    }
}

/// Drops every entry of the list.
pub fn clear<T>(head: &mut Link<T>)
    ensures
        seq_of(*final(head)) == Seq::<T>::empty(),
{
    *head = None;
}

/// The number of entries in the list.
pub fn len<T>(head: &Link<T>) -> (n: usize)
    requires
        seq_of(*head).len() <= usize::MAX,
    ensures
        n == seq_of(*head).len(),
    decreases seq_of(*head).len(),
{
    match head {
        None => 0,
        Some(e) => 1 + len(&e.next),
    }
}

/// Collects the record values into a vector, in list order.
pub fn iter<T: Copy>(head: &Link<T>) -> (v: Vec<T>)
    ensures
        v@ == seq_of(*head),
{
    let mut v: Vec<T> = Vec::new();
    push_all(&mut v, head);
    v
}

/// Applies `f` to every record value in list order, in place.
pub fn iter_mut<T, F: Fn(T) -> T>(head: &mut Link<T>, f: &F)
    requires
        forall|x: T| seq_of(*old(head)).contains(x) ==> call_requires(f, (x,)),
    ensures
        seq_of(*final(head)).len() == seq_of(*old(head)).len(),
        forall|i: int|
            0 <= i < seq_of(*old(head)).len() ==> call_ensures(
                f,
                (seq_of(*old(head))[i],),
                seq_of(*final(head))[i],
            ),
{
    let l = head.take();
    *head = map_link(l, f);
}

fn map_link<T, F: Fn(T) -> T>(l: Link<T>, f: &F) -> (r: Link<T>)
    requires
        forall|x: T| seq_of(l).contains(x) ==> call_requires(f, (x,)),
    ensures
        seq_of(r).len() == seq_of(l).len(),
        forall|i: int| 0 <= i < seq_of(l).len() ==> call_ensures(f, (seq_of(l)[i],), seq_of(r)[i]),
    decreases seq_of(l).len(),
{
    let ghost s = seq_of(l);
    match l {
        None => None,
        Some(e) => {
            let entry = *e;
            proof {
                assert(s == seq![entry.data] + seq_of(entry.next));
                assert(s.contains(entry.data)) by {
                    assert(s[0] == entry.data);
                }
                assert forall|x: T| seq_of(entry.next).contains(x) implies call_requires(
                    f,
                    (x,),
                ) by {
                    let i = choose|i: int|
                        0 <= i < seq_of(entry.next).len() && seq_of(entry.next)[i] == x;
                    assert(s[i + 1] == x);
                    assert(s.contains(x));
                }
            }
            let data = f(entry.data);
            let next = map_link(entry.next, f);
            Some(Box::new(Entry { data, next }))
        },
    }
}

/// Grows or shrinks the list to exactly `len` records: the surviving prefix
/// keeps its values, new records are constructed in order by `f` applied to
/// their index, and trailing records beyond `len` are discarded.
pub fn resize_with<T, F: Fn(usize) -> T>(head: &mut Link<T>, len: usize, f: &F)
    requires
        forall|i: usize| 0 <= i < len ==> call_requires(f, (i,)),
    ensures
        seq_of(*final(head)).len() == len,
        forall|i: int|
            0 <= i < len && i < seq_of(*old(head)).len() ==> seq_of(*final(head))[i] == seq_of(
                *old(head),
            )[i],
        forall|i: int|
            seq_of(*old(head)).len() <= i < len ==> call_ensures(
                f,
                (i as usize,),
                seq_of(*final(head))[i],
            ),
{
    let l = head.take();
    *head = resize_link(l, 0, len, f);
}

fn resize_link<T, F: Fn(usize) -> T>(l: Link<T>, i: usize, len: usize, f: &F) -> (r: Link<T>)
    requires
        i <= len,
        forall|j: usize| i <= j < len ==> call_requires(f, (j,)),
    ensures
        seq_of(r).len() == len - i,
        forall|k: int|
            0 <= k < len - i && k < seq_of(l).len() ==> seq_of(r)[k] == seq_of(l)[k],
        forall|k: int|
            seq_of(l).len() <= k < len - i ==> call_ensures(f, ((i + k) as usize,), seq_of(r)[k]),
    decreases len - i,
{
    if i == len {
        None
    } else {
        match l {
            None => {
                let data = f(i);
                let next = resize_link(None, i + 1, len, f);
                Some(Box::new(Entry { data, next }))
            },
            Some(e) => {
                let entry = *e;
                let next = resize_link(entry.next, i + 1, len, f);
                Some(Box::new(Entry { data: entry.data, next }))
            },
        }
    }
}

/// Updates the list in lockstep with `items` and resizes it to one record per
/// item: record `i` is updated by `mutate` from item `i`, a missing record is
/// first constructed by `new` from its item, and trailing records are
/// discarded. The updates are applied speculatively and committed only when
/// every one of them succeeds: if any `mutate` call fails, the list is left
/// exactly as it was and the first failure is returned.
#[verifier::rlimit(50)]
pub fn try_for_each_and_resize<T: Copy, S: Copy, R, FN: Fn(S) -> T, FM: Fn(T, S) -> Result<
    T,
    R,
>>(head: &mut Link<T>, items: &Vec<S>, new: &FN, mutate: &FM) -> (res: Result<(), R>)
    requires
        forall|i: int| 0 <= i < items@.len() ==> call_requires(new, (items@[i],)),
        forall|t: T, i: int| 0 <= i < items@.len() ==> call_requires(mutate, (t, items@[i])),
    ensures
        res is Ok ==> seq_of(*final(head)).len() == items@.len(),
        res is Ok ==> forall|i: int|
            0 <= i < items@.len() ==> lockstep_updated(
                seq_of(*old(head)),
                items@,
                *new,
                *mutate,
                i,
                seq_of(*final(head))[i],
            ),
        res matches Err(e) ==> *final(head) == *old(head) && lockstep_stopped(
            seq_of(*old(head)),
            items@,
            *new,
            *mutate,
            e,
        ),
{
    let ghost pre = seq_of(*head);
    let cur: Vec<T> = iter(head);
    let mut out: Vec<T> = Vec::new();
    let mut idx: usize = 0;
    while idx < items.len()
        invariant
            idx <= items@.len(),
            out@.len() == idx,
            cur@ == pre,
            *head == *old(head),
            seq_of(*head) == pre,
            forall|i: int| 0 <= i < items@.len() ==> call_requires(new, (items@[i],)),
            forall|t: T, i: int| 0 <= i < items@.len() ==> call_requires(mutate, (t, items@[i])),
            forall|j: int|
                0 <= j < idx ==> lockstep_updated(pre, items@, *new, *mutate, j, out@[j]),
        decreases items@.len() - idx,
    {
        let s = items[idx];
        let t = if idx < cur.len() {
            cur[idx]
        } else {
            new(s)
        };
        match mutate(t, s) {
            Ok(t2) => {
                out.push(t2);
                assert(lockstep_updated(pre, items@, *new, *mutate, idx as int, t2));
            },
            Err(e) => {
                proof {
                    assert(lockstep_failed(pre, items@, *new, *mutate, idx as int, e));
                    assert forall|j: int| 0 <= j < idx implies #[trigger] lockstep_update_succeeds(
                        pre,
                        items@,
                        *new,
                        *mutate,
                        j,
                    ) by {
                        assert(lockstep_updated(pre, items@, *new, *mutate, j, out@[j]));
                    }
                    assert(lockstep_stopped(pre, items@, *new, *mutate, e));
                }
                return Err(e);
            },
        }
        idx += 1;
    }
    let l = link_from(&out, 0);
    *head = l;
    proof {
        assert(seq_of(*head) =~= out@);
    }
    Ok(())
}

/// The update of record `i` succeeded and produced `result`: `mutate` mapped
/// the record's prior value (taken from the list where one survived, freshly
/// constructed by `new` otherwise) and item `i` to `Ok(result)`.
pub open spec fn lockstep_updated<T, S, R, FN: Fn(S) -> T, FM: Fn(T, S) -> Result<T, R>>(
    pre: Seq<T>,
    items: Seq<S>,
    new: FN,
    mutate: FM,
    i: int,
    result: T,
) -> bool {
    if i < pre.len() {
        call_ensures(mutate, (pre[i], items[i]), Ok(result))
    } else {
        exists|t: T|
            #[trigger] call_ensures(new, (items[i],), t) && call_ensures(
                mutate,
                (t, items[i]),
                Ok(result),
            )
    }
}

/// Some update failed: there is an item `k` whose update failed with `err`
/// while the update of every earlier item succeeded.
pub open spec fn lockstep_stopped<T, S, R, FN: Fn(S) -> T, FM: Fn(T, S) -> Result<T, R>>(
    pre: Seq<T>,
    items: Seq<S>,
    new: FN,
    mutate: FM,
    err: R,
) -> bool {
    exists|k: int|
        {
            &&& 0 <= k < items.len()
            &&& #[trigger] lockstep_failed(pre, items, new, mutate, k, err)
            &&& forall|j: int|
                0 <= j < k ==> #[trigger] lockstep_update_succeeds(pre, items, new, mutate, j)
        }
}

/// Some value can result from a successful update of record `i`.
pub open spec fn lockstep_update_succeeds<T, S, R, FN: Fn(S) -> T, FM: Fn(T, S) -> Result<T, R>>(
    pre: Seq<T>,
    items: Seq<S>,
    new: FN,
    mutate: FM,
    i: int,
) -> bool {
    exists|u: T| #[trigger] lockstep_updated(pre, items, new, mutate, i, u)
}

/// The update of record `i` failed with `err`.
pub open spec fn lockstep_failed<T, S, R, FN: Fn(S) -> T, FM: Fn(T, S) -> Result<T, R>>(
    pre: Seq<T>,
    items: Seq<S>,
    new: FN,
    mutate: FM,
    i: int,
    err: R,
) -> bool {
    if i < pre.len() {
        call_ensures(mutate, (pre[i], items[i]), Err(err))
    } else {
        exists|t: T|
            #[trigger] call_ensures(new, (items[i],), t) && call_ensures(
                mutate,
                (t, items[i]),
                Err(err),
            )
    }
}

fn link_from<T: Copy>(v: &Vec<T>, i: usize) -> (r: Link<T>)
    requires
        i <= v@.len(),
    ensures
        seq_of(r) == v@.subrange(i as int, v@.len() as int),
    decreases v@.len() - i,
{
    if i == v.len() {
        proof {
            assert(v@.subrange(i as int, v@.len() as int) =~= Seq::<T>::empty());
        }
        None
    } else {
        let data = v[i];
        let next = link_from(v, i + 1);
        proof {
            assert(v@.subrange(i as int, v@.len() as int) =~= seq![v@[i as int]] + v@.subrange(
                i + 1,
                v@.len() as int,
            ));
        }
        Some(Box::new(Entry { data, next }))
    }
}

fn push_all<T: Copy>(v: &mut Vec<T>, head: &Link<T>)
    ensures
        final(v)@ == old(v)@ + seq_of(*head),
    decreases seq_of(*head).len(),
{
    match head {
        None => {
            assert(v@ =~= v@ + seq_of(*head));
        },
        Some(e) => {
            v.push(e.data);
            push_all(v, &e.next);
            assert(v@ =~= old(v)@ + seq_of(*head));
        },
    }
}

} // verus!
