//! The durable shared-state store of the ticket component: one owned copy
//! of the record, guarded so that any number of readers or exactly one
//! writer hold access at a time, and a snapshot handed to stable storage on
//! every write release. Acquisition never blocks here: a refused
//! acquisition tells a cooperative caller to suspend and retry, so the
//! whole locking discipline is a plain state machine that can be driven and
//! checked step by step.

use vstd::prelude::*;
use crate::codec::data_wf;
use crate::codec::dec_data;
use crate::codec::decode_data;
use crate::codec::enc_data;
use crate::codec::encode_data;
use crate::codec::lemma_data_round_trip;
use crate::codec::cat_wf;
use crate::codec::str_wf;
use crate::matcher::Matched;
use crate::tickets::DataTickets;
use crate::tickets::TicketsOutcome;
use crate::tickets::handle_command;
use crate::tickets::spec_handle;

verus! {

/// A snapshot that no record could have produced.
#[derive(Clone, Copy, Debug, PartialEq, Eq, Structural)]
pub enum StoreError {
    Corrupt,
}

/// The store. `readers` and `writing` are the guard state: a read guard is
/// held `readers` times, a write guard at most once, never both.
pub struct Store {
    value: DataTickets,
    readers: usize,
    writing: bool,
    disk: Ghost<Option<Seq<char>>>,
}

impl Store {
    /// Mutual exclusion: while the writer holds the store no reader does.
    pub closed spec fn inv(&self) -> bool {
        self.writing ==> self.readers == 0
    }

    pub closed spec fn spec_value(&self) -> crate::tickets::DataView {
        self.value@
    }

    pub closed spec fn spec_readers(&self) -> int {
        self.readers as int
    }

    pub closed spec fn spec_writing(&self) -> bool {
        self.writing
    }

    /// What the store believes stable storage holds: the last snapshot
    /// handed over, or nothing before the first flush.
    pub closed spec fn spec_disk(&self) -> Option<Seq<char>> {
        self.disk@
    }

    /// Load-on-construction: a missing snapshot starts the store at the
    /// type-defined default and the first write becomes the first durable
    /// snapshot; a snapshot that does not parse is refused, never guessed
    /// at.
    pub fn load(snapshot: Option<&String>) -> (r: Result<Store, StoreError>)
        ensures
            match r {
                Ok(st) => st.inv() && st.spec_readers() == 0 && !st.spec_writing() && match snapshot {
                    None => st.spec_value().msg_choose is None && st.spec_value().categories
                        =~= Seq::<crate::tickets::CategoryView>::empty() && st.spec_disk() is None,
                    Some(s) => dec_data(s@) == Some(st.spec_value()) && st.spec_disk() == Some(s@),
                },
                Err(StoreError::Corrupt) => snapshot matches Some(s) && dec_data(s@) is None,
            },
    {
        match snapshot {
            None => Ok(
                Store {
                    value: DataTickets::default(),
                    readers: 0,
                    writing: false,
                    disk: Ghost(None),
                },
            ),
            Some(s) => match decode_data(s.as_str()) {
                Some(value) => Ok(
                    Store { value, readers: 0, writing: false, disk: Ghost(Some(s@)) },
                ),
                None => Err(StoreError::Corrupt),
            },
        }
    }

    /// Ask for shared read access. Granted exactly when no writer holds the
    /// store; a refusal means the caller should suspend and retry.
    pub fn try_acquire_read(&mut self) -> (ok: bool)
        requires
            old(self).inv(),
            old(self).spec_readers() < usize::MAX,
        ensures
            final(self).inv(),
            ok == !old(self).spec_writing(),
            final(self).spec_writing() == old(self).spec_writing(),
            final(self).spec_value() == old(self).spec_value(),
            final(self).spec_disk() == old(self).spec_disk(),
            final(self).spec_readers() == if ok {
                old(self).spec_readers() + 1
            } else {
                old(self).spec_readers()
            },
            store_step(store_view(*old(self)), store_view(*final(self))),
    {
        if self.writing {
            false
        } else {
            self.readers = self.readers + 1;
            true
        }
    }

    /// Give shared read access back.
    pub fn release_read(&mut self)
        requires
            old(self).inv(),
            old(self).spec_readers() > 0,
        ensures
            final(self).inv(),
            final(self).spec_readers() == old(self).spec_readers() - 1,
            final(self).spec_writing() == old(self).spec_writing(),
            final(self).spec_value() == old(self).spec_value(),
            final(self).spec_disk() == old(self).spec_disk(),
            store_step(store_view(*old(self)), store_view(*final(self))),
    {
        self.readers = self.readers - 1;
    }

    /// Ask for exclusive write access. Granted exactly when nobody holds
    /// the store at all.
    pub fn try_acquire_write(&mut self) -> (ok: bool)
        requires
            old(self).inv(),
        ensures
            final(self).inv(),
            ok == (!old(self).spec_writing() && old(self).spec_readers() == 0),
            final(self).spec_readers() == old(self).spec_readers(),
            final(self).spec_value() == old(self).spec_value(),
            final(self).spec_disk() == old(self).spec_disk(),
            final(self).spec_writing() == (old(self).spec_writing() || ok),
            store_step(store_view(*old(self)), store_view(*final(self))),
    {
        if !self.writing && self.readers == 0 {
            self.writing = true;
            true
        } else {
            false
        }
    }

    /// Read the record under a held guard. Readers can never observe a
    /// half-applied change: the value only moves while the writer is alone.
    pub fn read(&self) -> (r: &DataTickets)
        requires
            self.spec_readers() > 0 || self.spec_writing(),
        ensures
            r@ == self.spec_value(),
    {
        &self.value
    }

    /// Apply one resolved command to the record under the write guard.
    pub fn apply(&mut self, m: &Matched) -> (r: TicketsOutcome)
        requires
            old(self).inv(),
            old(self).spec_writing(),
        ensures
            final(self).inv(),
            final(self).spec_value() == spec_handle(old(self).spec_value(), m@).0,
            r@ == spec_handle(old(self).spec_value(), m@).1,
            final(self).spec_readers() == old(self).spec_readers(),
            final(self).spec_writing(),
            final(self).spec_disk() == old(self).spec_disk(),
            store_step(store_view(*old(self)), store_view(*final(self))),
    {
        handle_command(&mut self.value, m)
    }

    /// Remember the creation menu's channel and message under the write
    /// guard, or clear them when the remembered message is gone.
    pub fn set_menu_message(&mut self, ids: Option<(u64, u64)>)
        requires
            old(self).inv(),
            old(self).spec_writing(),
        ensures
            final(self).inv(),
            final(self).spec_value().msg_choose == ids,
            final(self).spec_value().categories == old(self).spec_value().categories,
            final(self).spec_readers() == old(self).spec_readers(),
            final(self).spec_writing(),
            final(self).spec_disk() == old(self).spec_disk(),
            store_step(store_view(*old(self)), store_view(*final(self))),
    {
        match ids {
            Some((channel, message)) => crate::tickets::set_channel_record(
                &mut self.value,
                channel,
                message,
            ),
            None => crate::tickets::reset_message_choose(&mut self.value, None),
        }
    }

    /// Replace the record wholesale under the write guard.
    pub fn replace(&mut self, value: DataTickets)
        requires
            old(self).inv(),
            old(self).spec_writing(),
        ensures
            final(self).inv(),
            final(self).spec_value() == value@,
            final(self).spec_readers() == old(self).spec_readers(),
            final(self).spec_writing(),
            final(self).spec_disk() == old(self).spec_disk(),
            store_step(store_view(*old(self)), store_view(*final(self))),
    {
        self.value = value;
    }

    /// Release the write guard. The snapshot of the current value is handed
    /// back for the caller to place on stable storage whole (write to a
    /// temporary file, then rename): decoding it gives back exactly the
    /// value it was taken from, so a reader that reopens the store sees the
    /// record the writer left. The in-memory value stands whatever becomes
    /// of the flush: a failed flush is reported by the caller, not rolled
    /// back here.
    pub fn release_write(&mut self) -> (snapshot: String)
        requires
            old(self).inv(),
            old(self).spec_writing(),
        ensures
            final(self).inv(),
            !final(self).spec_writing(),
            final(self).spec_readers() == old(self).spec_readers(),
            final(self).spec_value() == old(self).spec_value(),
            snapshot@ == enc_data(old(self).spec_value()),
            final(self).spec_disk() == Some(snapshot@),
            dec_data(snapshot@) == Some(old(self).spec_value()),
            store_step(store_view(*old(self)), store_view(*final(self))),
    {
        note_data_wf(&self.value);
        let snapshot = encode_data(&self.value);
        proof {
            lemma_data_round_trip(self.value@);
        }
        self.writing = false;
        self.disk = Ghost(Some(snapshot@));
        snapshot
    }
}

/// Writers observe strict mutual exclusion: while the write guard is held,
/// no read guard is, so no reader can observe a half-applied change.
pub proof fn lemma_writer_excludes_readers(st: Store)
    requires
        st.inv(),
        st.spec_writing(),
    ensures
        st.spec_readers() == 0,
{
}

/// The observable state of the store, for stating laws over interleavings
/// of many cooperative handlers.
pub struct StoreView {
    pub value: crate::tickets::DataView,
    pub readers: int,
    pub writing: bool,
    pub disk: Option<Seq<char>>,
}

pub open spec fn store_view(st: Store) -> StoreView {
    StoreView {
        value: st.spec_value(),
        readers: st.spec_readers(),
        writing: st.spec_writing(),
        disk: st.spec_disk(),
    }
}

pub open spec fn inv_view(sv: StoreView) -> bool {
    sv.writing ==> sv.readers == 0
}

/// One cooperative step of the store: what any single handler's call can
/// do to it, one disjunct per method of the store, refusals and plain
/// reads folded into the stutter. Each disjunct restates that method's
/// `ensures` word for word, so any interleaving of handlers walks a chain
/// of these steps.
pub open spec fn store_step(pre: StoreView, post: StoreView) -> bool {
    ||| post == pre
    ||| (!pre.writing && post == StoreView { readers: pre.readers + 1, ..pre })
    ||| (pre.readers > 0 && post == StoreView { readers: pre.readers - 1, ..pre })
    ||| (!pre.writing && pre.readers == 0 && post == StoreView { writing: true, ..pre })
    ||| (pre.writing && post == StoreView { value: post.value, ..pre })
    ||| (pre.writing && post == StoreView {
        writing: false,
        disk: Some(enc_data(pre.value)),
        ..pre
    })
}

pub proof fn lemma_step_preserves_inv(pre: StoreView, post: StoreView)
    requires
        inv_view(pre),
        store_step(pre, post),
    ensures
        inv_view(post),
{
}

/// While at least one reader holds the store, a single step cannot move
/// the value: mutation and release demand the write guard, which the
/// invariant excludes.
pub proof fn lemma_value_stable_while_read(pre: StoreView, post: StoreView)
    requires
        inv_view(pre),
        store_step(pre, post),
        pre.readers > 0,
    ensures
        post.value == pre.value,
        inv_view(post),
{
}

/// Item one of the concurrency law: over any interleaving of cooperative
/// steps during which some reader holds shared access throughout, every
/// state shows the very value the interval began with — no reader ever
/// observes a partially mutated record.
pub proof fn lemma_no_reader_observes_a_partial_write(trace: Seq<StoreView>)
    requires
        trace.len() > 0,
        inv_view(trace[0]),
        forall|k: int| 0 <= k < trace.len() - 1 ==> store_step(#[trigger] trace[k], trace[k + 1]),
        forall|k: int| 0 <= k < trace.len() ==> (#[trigger] trace[k]).readers > 0,
    ensures
        forall|k: int| 0 <= k < trace.len() ==> (#[trigger] trace[k]).value == trace[0].value,
    decreases trace.len(),
{
    if trace.len() > 1 {
        lemma_value_stable_while_read(trace[0], trace[1]);
        let rest = trace.drop_first();
        assert(forall|k: int| 0 <= k < rest.len() ==> #[trigger] rest[k] == trace[k + 1]);
        lemma_no_reader_observes_a_partial_write(rest);
        assert forall|k: int| 0 <= k < trace.len() implies (#[trigger] trace[k]).value
            == trace[0].value by {
            if k > 0 {
                assert(trace[k] == rest[k - 1]);
                assert(rest[k - 1].value == rest[0].value);
            }
        }
    }
}

/// Item two of the concurrency law: the step that releases the write
/// guard publishes the whole committed value at once — it is what every
/// subsequent reader observes — and hands stable storage a snapshot that
/// reads back as exactly that value.
pub proof fn lemma_release_publishes_whole_value(pre: StoreView, post: StoreView)
    requires
        inv_view(pre),
        store_step(pre, post),
        pre.writing,
        !post.writing,
    ensures
        post.value == pre.value,
        post.disk == Some(enc_data(pre.value)),
        data_wf(pre.value) ==> dec_data(enc_data(pre.value)) == Some(post.value),
{
    if data_wf(pre.value) {
        lemma_data_round_trip(pre.value);
    }
}

/// Every record held in memory fits the snapshot format: its lengths are
/// measured by machine words, so they fit the number fields.
fn note_data_wf(d: &DataTickets)
    ensures
        data_wf(d@),
{
    let mut i: usize = 0;
    while i < d.categories.len()
        invariant
            i <= d.categories@.len(),
            forall|j: int| 0 <= j < i ==> cat_wf(#[trigger] d@.categories[j]),
        decreases d.categories.len() - i,
    {
        let c = &d.categories[i];
        let _ = c.name.as_str().unicode_len();
        let _ = c.prefix.as_str().unicode_len();
        match &c.desc {
            Some(s) => {
                let _ = s.as_str().unicode_len();
            },
            None => {},
        }
        let mut k: usize = 0;
        while k < c.tickets.len()
            invariant
                k <= c.tickets@.len(),
                forall|j: int| 0 <= j < k ==> str_wf(#[trigger] c@.tickets[j]),
            decreases c.tickets.len() - k,
        {
            let _ = c.tickets[k].as_str().unicode_len();
            proof {
                assert(c@.tickets[k as int] == c.tickets@[k as int]@);
            }
            k = k + 1;
        }
        proof {
            assert(cat_wf(d@.categories[i as int]));
        }
        i = i + 1;
    }
}

} // verus!
