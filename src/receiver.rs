//! Telemetry records and their fan-out to the queues of independent sinks.
use vstd::prelude::*;
use std::sync::Arc;
use futures::channel::mpsc::{TrySendError, UnboundedSender};
use crate::catalog::Catalog;

verus! {

/// A set of values associated with all fields
pub struct Update {
    /// Nanoseconds since UNIX epoch
    pub timestamp: i64,
    /// Inverter serial number
    pub serial: String,
    /// Fields contained in the update
    pub fields: Arc<Catalog>,
    /// Values for the fields in `fields`, in millionths of each field's unit
    pub values: Vec<i64>,
}

impl Update {
    pub fn new(timestamp: i64, serial: String, fields: Arc<Catalog>, values: Vec<i64>) -> (r: Update)
        requires
            values@.len() == (*fields)@.len(),
        ensures
            r.timestamp == timestamp,
            r.serial@ == serial@,
            *r.fields == *fields,
            r.values@ == values@,
    {
        Update { timestamp, serial, fields, values }
    }
}

#[verifier::external_type_specification]
#[verifier::external_body]
#[verifier::reject_recursive_types(T)]
pub struct ExUnboundedSender<T>(UnboundedSender<T>);

#[verifier::external_type_specification]
#[verifier::external_body]
#[verifier::reject_recursive_types(T)]
pub struct ExTrySendError<T>(TrySendError<T>);

/// The values that a list of shared handles points at.
pub open spec fn shared_values<T>(v: Seq<Arc<T>>) -> Seq<T> {
    v.map_values(|a: Arc<T>| *a)
}

/// Relies on `Arc::clone`: the new handle shares the value of the old one.
#[verifier::external_body]
pub(crate) fn share<T>(a: &Arc<T>) -> (r: Arc<T>)
    ensures
        *r == **a,
{
    Arc::clone(a)
}

/// Why a record could not be handed on.
#[derive(Clone, Copy, PartialEq, Eq, Debug, Structural)]
pub enum DispatchError {
    /// The queue of the sink at this position is closed.
    Disconnected(usize),
}

/// The sending end of one sink's queue, with the record of what the queue
/// has accepted and how often this end was closed.
#[verifier::reject_recursive_types(T)]
pub struct SinkQueue<T> {
    sender: UnboundedSender<Arc<T>>,
    /// The records that the queue has accepted, in order
    accepted: Ghost<Seq<T>>,
    /// How many times this end has been closed
    closes: Ghost<nat>,
}

impl<T> SinkQueue<T> {
    /// The records that the queue has accepted, in order.
    pub closed spec fn accepted(&self) -> Seq<T> {
        self.accepted@
    }

    /// How many times this end has been closed.
    pub closed spec fn closes(&self) -> nat {
        self.closes@
    }

    /// Takes over the sending end of a queue that has accepted nothing yet.
    pub fn new(sender: UnboundedSender<Arc<T>>) -> (r: Self)
        ensures
            r.accepted() == Seq::<T>::empty(),
            r.closes() == 0,
    {
        SinkQueue { sender, accepted: Ghost(Seq::empty()), closes: Ghost(0) }
    }

    /// Relies on `UnboundedSender::unbounded_send`: it queues the message
    /// unless the receiving half is gone, which it reports as an error.
    #[verifier::external_body]
    fn send(&mut self, msg: Arc<T>) -> (r: Result<(), TrySendError<Arc<T>>>)
        ensures
            r is Ok ==> final(self).accepted() == old(self).accepted().push(*msg),
            r is Err ==> final(self).accepted() == old(self).accepted(),
            final(self).closes() == old(self).closes(),
    {
        self.sender.unbounded_send(msg)
    }

    /// Relies on `UnboundedSender::disconnect`: this end queues no more
    /// messages, which ends the receiver's stream once no other sender is left.
    #[verifier::external_body]
    fn disconnect(&mut self)
        ensures
            final(self).accepted() == old(self).accepted(),
            final(self).closes() == old(self).closes() + 1,
    {
        self.sender.disconnect()
    }
}

/// A run stopped at record `i` because the queue of sink `k` was closed:
/// the earlier records reached every sink, record `i` only the sinks before
/// `k`.
pub open spec fn stopped_at<T>(
    before: Seq<Seq<T>>,
    after: Seq<Seq<T>>,
    records: Seq<T>,
    k: int,
    i: int,
) -> bool {
    &&& 0 <= i < records.len()
    &&& after.len() == before.len()
    &&& forall|j: int| 0 <= j < k ==> #[trigger] after[j] == before[j] + records.take(i + 1)
    &&& forall|j: int| k <= j < before.len() ==> #[trigger] after[j] == before[j] + records.take(i)
}

/// Fans every record out to the queues of all registered sinks. Each sink
/// receives a shared handle to the same record, in the order of dispatch.
#[verifier::reject_recursive_types(T)]
pub struct Dispatcher<T> {
    sinks: Vec<SinkQueue<T>>,
}

impl<T> Dispatcher<T> {
    /// Number of registered sinks.
    pub closed spec fn sink_count(&self) -> nat {
        self.sinks@.len()
    }

    /// The records that each sink's queue has accepted, in order.
    pub closed spec fn handed(&self) -> Seq<Seq<T>> {
        Seq::new(self.sinks@.len(), |j: int| self.sinks@[j].accepted())
    }

    /// How many times each sink's queue has been closed.
    pub closed spec fn closes(&self) -> Seq<nat> {
        Seq::new(self.sinks@.len(), |j: int| self.sinks@[j].closes())
    }

    /// A dispatcher without sinks.
    pub fn new() -> (r: Self)
        ensures
            r.sink_count() == 0,
            r.handed() == Seq::<Seq<T>>::empty(),
            r.closes() == Seq::<nat>::empty(),
    {
        let r = Dispatcher { sinks: Vec::new() };
        assert(r.handed() == Seq::<Seq<T>>::empty());
        assert(r.closes() == Seq::<nat>::empty());
        r
    }

    /// Number of registered sinks.
    pub fn len(&self) -> (r: usize)
        ensures
            r == self.sink_count(),
    {
        self.sinks.len()
    }

    /// Adds a sink's queue; it has received nothing and is open.
    pub fn register(&mut self, sink: UnboundedSender<Arc<T>>)
        ensures
            final(self).sink_count() == old(self).sink_count() + 1,
            final(self).handed() == old(self).handed().push(Seq::empty()),
            final(self).closes() == old(self).closes().push(0),
    {
        self.sinks.push(SinkQueue::new(sink));
        assert(self.handed() == old(self).handed().push(Seq::empty()));
        assert(self.closes() == old(self).closes().push(0));
    }

    /// Pushes a handle to the record onto every sink's queue, in sink order.
    /// Stops at the first closed queue and reports its position; the sinks
    /// before it have received the record, the others have not.
    pub fn dispatch(&mut self, record: Arc<T>) -> (r: Result<(), DispatchError>)
        ensures
            final(self).sink_count() == old(self).sink_count(),
            final(self).closes() == old(self).closes(),
            r is Ok ==> forall|j: int|
                0 <= j < old(self).sink_count() ==> #[trigger] final(self).handed()[j] == old(
                    self,
                ).handed()[j].push(*record),
            r matches Err(DispatchError::Disconnected(k)) ==> {
                &&& k < old(self).sink_count()
                &&& forall|j: int|
                    0 <= j < k ==> #[trigger] final(self).handed()[j] == old(self).handed()[j].push(
                        *record,
                    )
                &&& forall|j: int|
                    k <= j < old(self).sink_count() ==> #[trigger] final(self).handed()[j] == old(
                        self,
                    ).handed()[j]
            },
    {
        let n = self.sinks.len();
        let mut j: usize = 0;
        while j < n
            invariant
                n == self.sinks@.len(),
                n == old(self).sinks@.len(),
                j <= n,
                forall|i: int| 0 <= i < n ==> #[trigger] self.sinks@[i].closes() == old(self).sinks@[i].closes(),
                forall|i: int|
                    0 <= i < j ==> #[trigger] self.sinks@[i].accepted() == old(self).sinks@[i].accepted().push(
                        *record,
                    ),
                forall|i: int|
                    j <= i < n ==> #[trigger] self.sinks@[i].accepted() == old(self).sinks@[i].accepted(),
            decreases n - j,
        {
            let msg = share(&record);
            match self.sinks[j].send(msg) {
                Ok(()) => {},
                Err(_) => {
                    assert(self.closes() =~= old(self).closes());
                    return Err(DispatchError::Disconnected(j));
                },
            }
            j = j + 1;
        }
        assert(self.closes() =~= old(self).closes());
        Ok(())
    }

    /// Signals every sink that no more records will arrive.
    pub fn close(&mut self)
        ensures
            final(self).sink_count() == old(self).sink_count(),
            final(self).handed() == old(self).handed(),
            forall|j: int|
                0 <= j < old(self).sink_count() ==> #[trigger] final(self).closes()[j] == old(
                    self,
                ).closes()[j] + 1,
    {
        let n = self.sinks.len();
        let mut j: usize = 0;
        while j < n
            invariant
                n == self.sinks@.len(),
                n == old(self).sinks@.len(),
                j <= n,
                forall|i: int| 0 <= i < n ==> #[trigger] self.sinks@[i].accepted() == old(self).sinks@[i].accepted(),
                forall|i: int| 0 <= i < j ==> #[trigger] self.sinks@[i].closes() == old(self).sinks@[i].closes() + 1,
                forall|i: int| j <= i < n ==> #[trigger] self.sinks@[i].closes() == old(self).sinks@[i].closes(),
            decreases n - j,
        {
            self.sinks[j].disconnect();
            j = j + 1;
        }
        assert(self.handed() =~= old(self).handed());
    }

    /// Dispatches a finished sequence of records in order, then closes every
    /// sink's queue. On success each sink has received exactly these records,
    /// in this order, after what it had before, and was closed once more. On
    /// failure no queue is closed; the records before the failing one reached
    /// every sink, and the failing one reached the sinks before the closed
    /// queue only.
    pub fn run(&mut self, records: Vec<Arc<T>>) -> (r: Result<(), DispatchError>)
        ensures
            final(self).sink_count() == old(self).sink_count(),
            r is Ok ==> forall|j: int|
                0 <= j < old(self).sink_count() ==> {
                    &&& #[trigger] final(self).handed()[j] == old(self).handed()[j] + shared_values(records@)
                    &&& final(self).closes()[j] == old(self).closes()[j] + 1
                },
            r matches Err(DispatchError::Disconnected(k)) ==> {
                &&& k < old(self).sink_count()
                &&& final(self).closes() == old(self).closes()
                &&& exists|i: int|
                    #[trigger] stopped_at(
                        old(self).handed(),
                        final(self).handed(),
                        shared_values(records@),
                        k as int,
                        i,
                    )
            },
    {
        let ghost deref = shared_values(records@);
        let mut i: usize = 0;
        while i < records.len()
            invariant
                i <= records@.len(),
                deref == shared_values(records@),
                self.sink_count() == old(self).sink_count(),
                self.closes() == old(self).closes(),
                forall|j: int|
                    0 <= j < old(self).sink_count() ==> #[trigger] self.handed()[j] == old(
                        self,
                    ).handed()[j] + deref.take(i as int),
            decreases records@.len() - i,
        {
            let rec = share(&records[i]);
            let ghost before = self.handed();
            proof {
                assert(deref.take(i as int + 1) == deref.take(i as int).push(deref[i as int]));
            }
            match self.dispatch(rec) {
                Ok(()) => {},
                Err(e) => {
                    proof {
                        let k = match e { DispatchError::Disconnected(k) => k };
                        assert forall|j: int| 0 <= j < k implies #[trigger] self.handed()[j]
                            == old(self).handed()[j] + deref.take(i as int + 1) by {
                            assert(before[j] == old(self).handed()[j] + deref.take(i as int));
                        }
                        assert forall|j: int| k <= j < old(self).sink_count() implies #[trigger] self.handed()[j]
                            == old(self).handed()[j] + deref.take(i as int) by {
                            assert(before[j] == old(self).handed()[j] + deref.take(i as int));
                        }
                        assert(stopped_at(old(self).handed(), self.handed(), deref, k as int, i as int));
                    }
                    return Err(e);
                },
            }
            proof {
                assert forall|j: int| 0 <= j < old(self).sink_count() implies #[trigger] self.handed()[j]
                    == old(self).handed()[j] + deref.take(i as int + 1) by {
                    assert(before[j] == old(self).handed()[j] + deref.take(i as int));
                    assert(self.handed()[j] == before[j].push(deref[i as int]));
                }
            }
            i = i + 1;
        }
        assert(deref.take(i as int) == deref);
        self.close();
        Ok(())
    }
}

} // verus!
