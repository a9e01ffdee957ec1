//! The host's requests for the counter, waiting to be answered.
use embassy_sync::blocking_mutex::raw::CriticalSectionRawMutex;
use embassy_sync::channel::Channel;
use vstd::prelude::*;

verus! {

/// Requests that can wait at a time.
pub const MAX_REQUESTS: usize = 8;

/// The requests that wait to be answered: an `embassy_sync` channel of
/// [`MAX_REQUESTS`] places.
#[verifier::external_body]
pub struct RequestQueue {
    channel: Channel<CriticalSectionRawMutex, bool, MAX_REQUESTS>,
}

/// What the channel in a [`RequestQueue`] buffers, the oldest request first.
pub uninterp spec fn request_queue_contents(queue: RequestQueue) -> Seq<bool>;

/// `Channel::new`: a channel that buffers nothing.
#[verifier::external_body]
fn request_channel_new() -> (queue: RequestQueue)
    ensures
        request_queue_contents(queue) == Seq::<bool>::empty(),
{
    RequestQueue { channel: Channel::new() }
}

/// `Channel::try_send`: puts the request behind those that wait if fewer than
/// [`MAX_REQUESTS`] do, and otherwise leaves the channel as it was and says so.
#[verifier::external_body]
fn request_channel_try_send(queue: &mut RequestQueue, request: bool) -> (sent: bool)
    ensures
        sent <==> request_queue_contents(*old(queue)).len() < MAX_REQUESTS,
        sent ==> request_queue_contents(*final(queue)) == request_queue_contents(*old(queue)).push(
            request,
        ),
        !sent ==> request_queue_contents(*final(queue)) == request_queue_contents(*old(queue)),
{
    queue.channel.try_send(request).is_ok()
}

/// `Channel::try_receive`: takes the oldest request out, or gives nothing where
/// none waits.
#[verifier::external_body]
fn request_channel_try_receive(queue: &mut RequestQueue) -> (received: Option<bool>)
    ensures
        received is Some <==> request_queue_contents(*old(queue)).len() > 0,
        received matches Some(request) ==> {
            &&& request == request_queue_contents(*old(queue))[0]
            &&& request_queue_contents(*final(queue)) == request_queue_contents(*old(queue)).skip(
                1,
            )
        },
        received is None ==> request_queue_contents(*final(queue)) == request_queue_contents(
            *old(queue),
        ),
{
    queue.channel.try_receive().ok()
}

impl View for RequestQueue {
    type V = Seq<bool>;

    open spec fn view(&self) -> Seq<bool> {
        request_queue_contents(*self)
    }
}

/// The requests that wait after one more was made: where no place is left it is
/// dropped.
pub open spec fn requested(requests: Seq<bool>) -> Seq<bool> {
    if requests.len() < MAX_REQUESTS {
        requests.push(true)
    } else {
        requests
    }
}

impl RequestQueue {
    /// No more requests wait than the queue has places.
    pub open spec fn wf(self) -> bool {
        self@.len() <= MAX_REQUESTS
    }

    /// A queue in which nothing waits.
    pub fn new() -> (queue: Self)
        ensures
            queue@ == Seq::<bool>::empty(),
            queue.wf(),
    {
        request_channel_new()
    }

    /// Asks for the counter without waiting for room, and says whether there was
    /// any.
    pub fn request(&mut self) -> (taken: bool)
        ensures
            taken <==> old(self)@.len() < MAX_REQUESTS,
            final(self)@ == requested(old(self)@),
            old(self)@.len() < 8 ==> final(self)@ == old(self)@.push(true),
            old(self)@.len() >= 8 ==> final(self)@ == old(self)@,
            old(self).wf() ==> final(self).wf(),
    {
        request_channel_try_send(self, true)
    }

    /// Takes the oldest request out of the queue, and says whether there was any.
    pub fn take(&mut self) -> (taken: bool)
        ensures
            taken <==> old(self)@.len() > 0,
            taken ==> final(self)@ == old(self)@.skip(1),
            !taken ==> final(self)@ == old(self)@,
            old(self).wf() ==> final(self).wf(),
    {
        match request_channel_try_receive(self) {
            Some(_) => true,
            None => false,
        }
    }
}

/// A request stands behind those that wait, and nothing else changes; where eight wait
/// already, nothing changes at all.
pub proof fn a_request_is_added_behind(requests: Seq<bool>)
    ensures
        requests.len() < 8 ==> requested(requests) == requests + seq![true],
        requests.len() >= 8 ==> requested(requests) == requests,
{
    if requests.len() < 8 {
        assert(requested(requests) =~= requests + seq![true]);
    }
}

/// After the host has asked, at least one request waits, whether or not there was room
/// for this one, and never do more wait than there are places.
pub proof fn a_request_waits(requests: Seq<bool>)
    requires
        requests.len() <= MAX_REQUESTS,
    ensures
        0 < requested(requests).len() <= MAX_REQUESTS,
        requests.is_prefix_of(requested(requests)),
{
    assert(requests =~= requested(requests).subrange(0, requests.len() as int));
}

}
