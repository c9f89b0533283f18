//! The single-producer single-consumer queues of text between the data plane
//! and the user interface.
//!
//! The two ends live on different threads, so whether a queue is full or empty
//! at a given moment is not ours to say. What is: each end's own history.

use vstd::prelude::*;

use rtrb::{Consumer, Producer, PushError};

verus! {

/// The sending end of a queue.
#[verifier::external_type_specification]
#[verifier::external_body]
#[verifier::reject_recursive_types(T)]
pub struct ExProducer<T>(Producer<T>);

/// The receiving end of a queue.
#[verifier::external_type_specification]
#[verifier::external_body]
#[verifier::reject_recursive_types(T)]
pub struct ExConsumer<T>(Consumer<T>);

/// What went into a queue through its sending end so far, in order.
pub uninterp spec fn pushed(p: Producer<String>) -> Seq<Seq<char>>;

/// What the sending end of a queue was given to send so far, in order, whether
/// there was room for it or not.
pub uninterp spec fn offers(p: Producer<String>) -> Seq<Seq<char>>;

/// What came out of a queue through its receiving end so far, in order.
pub uninterp spec fn popped(c: Consumer<String>) -> Seq<Seq<char>>;

/// How many times the receiving end of a queue was asked for a text so far,
/// whether there was one or not.
pub uninterp spec fn asked(c: Consumer<String>) -> nat;

/// What the receiving end of a queue has seen arrive and not taken yet, oldest
/// first. The other thread can neither take it back nor change it; what else
/// it has sent meanwhile is seen only once all of this is taken.
pub uninterp spec fn arrived(c: Consumer<String>) -> Seq<Seq<char>>;

/// How many free slots the sending end of a queue has seen and not filled yet.
/// The other thread can only free more; what it has freed meanwhile is seen
/// only once all of these are filled.
pub uninterp spec fn room(p: Producer<String>) -> nat;

/// `Producer::push`: queues a text behind all others. It goes into a slot that
/// this end has seen free, where there is one; else it looks for slots freed
/// since, and hands the very text back where the queue is full. What it finds
/// there rests on how far the other thread has come. A call is one offer of the
/// text, however it ends.
#[verifier::external_body]
pub(crate) fn offer(p: &mut Producer<String>, value: String) -> (r: Result<(), String>)
    ensures
        offers(*final(p)) == offers(*old(p)).push(value@),
        r is Ok ==> pushed(*final(p)) == pushed(*old(p)).push(value@),
        r matches Err(back) ==> back@ == value@ && pushed(*final(p)) == pushed(*old(p)),
        room(*old(p)) > 0 ==> r is Ok && room(*final(p)) == room(*old(p)) - 1,
        r is Err ==> room(*final(p)) == 0,
{
    p.push(value).map_err(
        |e|
            match e {
                PushError::Full(back) => back,
            },
    )
}

/// `Consumer::pop`: takes the oldest text out of a queue. It is the oldest of
/// those that this end has seen arrive, where there is one; else it looks for
/// what has arrived since, and takes nothing where the queue is empty. What it
/// finds there rests on how far the other thread has come. A call asks once,
/// however it ends.
#[verifier::external_body]
pub(crate) fn take_next(c: &mut Consumer<String>) -> (r: Option<String>)
    ensures
        asked(*final(c)) == asked(*old(c)) + 1,
        r matches Some(value) ==> popped(*final(c)) == popped(*old(c)).push(value@),
        r is None ==> popped(*final(c)) == popped(*old(c)),
        arrived(*old(c)).len() > 0 ==> {
            &&& r is Some
            &&& r->Some_0@ == arrived(*old(c)).first()
            &&& arrived(*final(c)) == arrived(*old(c)).drop_first()
        },
        r is None ==> arrived(*final(c)).len() == 0,
{
    c.pop().ok()
}

/// Those of `items` that were accepted.
pub open spec fn accepted(items: Seq<Seq<char>>, ok: Seq<bool>) -> Seq<Seq<char>>
    decreases items.len(),
{
    if items.len() == 0 {
        Seq::empty()
    } else if ok[items.len() - 1] {
        accepted(items.drop_last(), ok).push(items.last())
    } else {
        accepted(items.drop_last(), ok)
    }
}

/// Offers every text to a queue, in order. One that finds the queue full is
/// dropped, and the next one is offered all the same. The result says which
/// were accepted: as many as the queue was seen to have room for are.
pub fn push_all(p: &mut Producer<String>, items: Vec<String>) -> (r: Vec<bool>)
    ensures
        r@.len() == items@.len(),
        offers(*final(p)) == offers(*old(p)) + items.deep_view(),
        pushed(*final(p)) == pushed(*old(p)) + accepted(items.deep_view(), r@),
        forall|i: int| 0 <= i < r@.len() && i < room(*old(p)) ==> r@[i],
{
    let mut ok: Vec<bool> = Vec::new();
    let ghost texts = items.deep_view();
    let mut i: usize = 0;
    assert(pushed(*p) + accepted(texts.take(0), ok@) =~= pushed(*p));
    assert(offers(*p) + texts.take(0) =~= offers(*p));
    while i < items.len()
        invariant
            i <= items@.len(),
            ok@.len() == i,
            texts == items.deep_view(),
            offers(*p) == offers(*old(p)) + texts.take(i as int),
            pushed(*p) == pushed(*old(p)) + accepted(texts.take(i as int), ok@),
            i < room(*old(p)) ==> room(*p) == room(*old(p)) - i,
            forall|k: int| 0 <= k < i && k < room(*old(p)) ==> ok@[k],
        decreases items@.len() - i,
    {
        let ghost before = ok@;
        let taken = offer(p, items[i].clone()).is_ok();
        ok.push(taken);
        i = i + 1;
        proof {
            let now = texts.take(i as int);
            assert(now.drop_last() =~= texts.take(i - 1));
            lemma_accepted_prefix(texts.take(i - 1), before, ok@);
            assert(now.last() == items@[i - 1]@);
            assert(pushed(*p) =~= pushed(*old(p)) + accepted(now, ok@));
            assert(offers(*p) =~= offers(*old(p)) + now);
        }
    }
    assert(texts.take(i as int) =~= texts);
    ok
}

pub(crate) proof fn lemma_accepted_prefix(items: Seq<Seq<char>>, a: Seq<bool>, b: Seq<bool>)
    requires
        items.len() <= a.len() <= b.len(),
        forall|i: int| 0 <= i < a.len() ==> a[i] == b[i],
    ensures
        accepted(items, a) == accepted(items, b),
    decreases items.len(),
{
    if items.len() > 0 {
        lemma_accepted_prefix(items.drop_last(), a, b);
    }
}

} // verus!
