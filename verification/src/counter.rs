use vstd::prelude::*;

verus! {

/// Abstract state of an [`AllocCounter`]: the bytes currently live and the
/// highest live count recorded since the last measurement began.
pub struct CounterState {
    pub current: usize,
    pub peak: usize,
}

/// One call into a counting allocator, as the counter sees it.
pub enum AllocEvent {
    /// `alloc` or `alloc_zeroed` of `size` bytes; `granted` is whether the
    /// underlying allocator returned a non-null pointer.
    Alloc { size: usize, granted: bool },
    /// `dealloc` of a block of `size` bytes.
    Dealloc { size: usize },
    /// `realloc` of a block of `old_size` bytes to `new_size` bytes.
    Realloc { old_size: usize, new_size: usize, granted: bool },
}

/// Counts the bytes that an allocator has handed out and not yet taken back,
/// and the highest such count.
///
/// Counter arithmetic follows the atomics it models: freeing subtracts with
/// wrap-around, while adding must not overflow.
pub struct AllocCounter {
    current: usize,
    peak: usize,
}

impl View for AllocCounter {
    type V = CounterState;

    closed spec fn view(&self) -> CounterState {
        CounterState { current: self.current, peak: self.peak }
    }
}

pub open spec fn max_usize(a: usize, b: usize) -> usize {
    if a >= b { a } else { b }
}

/// The state after `n` more bytes became live: the live count grows by `n`
/// and the peak takes the new live count if it is higher.
pub open spec fn after_allocated(s: CounterState, n: usize) -> CounterState {
    let c = s.current.wrapping_add(n);
    CounterState { current: c, peak: max_usize(s.peak, c) }
}

/// The state after one allocator call.
pub open spec fn apply(s: CounterState, e: AllocEvent) -> CounterState {
    match e {
        AllocEvent::Alloc { size, granted } => if granted { after_allocated(s, size) } else { s },
        AllocEvent::Dealloc { size } => CounterState { current: s.current.wrapping_sub(size), peak: s.peak },
        AllocEvent::Realloc { old_size, new_size, granted } => if granted {
            after_allocated(CounterState { current: s.current.wrapping_sub(old_size), peak: s.peak }, new_size)
        } else {
            s
        },
    }
}

/// The state after a sequence of allocator calls, in order.
pub open spec fn replay(s: CounterState, events: Seq<AllocEvent>) -> CounterState
    decreases events.len(),
{
    if events.len() == 0 {
        s
    } else {
        apply(replay(s, events.drop_last()), events.last())
    }
}

/// A call frees no more bytes than are live when it is made.
pub open spec fn frees_only_live(s: CounterState, e: AllocEvent) -> bool {
    match e {
        AllocEvent::Dealloc { size } => size <= s.current,
        _ => true,
    }
}

/// Every call of the sequence frees no more bytes than are live at that point.
pub open spec fn trace_frees_only_live(s: CounterState, events: Seq<AllocEvent>) -> bool
    decreases events.len(),
{
    if events.len() == 0 {
        true
    } else {
        trace_frees_only_live(s, events.drop_last())
            && frees_only_live(replay(s, events.drop_last()), events.last())
    }
}

/// The highest of the starting peak and the live counts after each call.
pub open spec fn highest_live(s: CounterState, events: Seq<AllocEvent>) -> usize
    decreases events.len(),
{
    if events.len() == 0 {
        s.peak
    } else {
        max_usize(highest_live(s, events.drop_last()), replay(s, events).current)
    }
}

/// How each call moves the live count and the peak, in plain arithmetic: a
/// granted allocation adds its size, a free of live bytes subtracts its size,
/// a granted reallocation of a live block adds `new_size - old_size`, and a
/// refused request changes nothing. The peak becomes the new live count when
/// that is higher and otherwise stays.
pub proof fn lemma_live_count_deltas(s: CounterState, size: usize, old_size: usize, new_size: usize)
    ensures
        s.current + size <= usize::MAX ==> {
            let t = apply(s, AllocEvent::Alloc { size, granted: true });
            &&& t.current == s.current + size
            &&& t.peak == (if s.current + size > s.peak { s.current + size } else { s.peak as int })
        },
        apply(s, AllocEvent::Alloc { size, granted: false }) == s,
        size <= s.current ==> apply(s, AllocEvent::Dealloc { size })
            == (CounterState { current: (s.current - size) as usize, peak: s.peak }),
        old_size <= s.current && s.current - old_size + new_size <= usize::MAX ==> {
            let t = apply(s, AllocEvent::Realloc { old_size, new_size, granted: true });
            &&& t.current == s.current - old_size + new_size
            &&& t.peak == (if s.current - old_size + new_size > s.peak {
                s.current - old_size + new_size
            } else {
                s.peak as int
            })
        },
        apply(s, AllocEvent::Realloc { old_size, new_size, granted: false }) == s,
{
}

/// Freeing the bytes of a granted allocation returns the live count to where it
/// was, while the peak keeps the count reached in between.
pub proof fn lemma_free_undoes_alloc(s: CounterState, size: usize)
    requires
        s.current + size <= usize::MAX,
    ensures
        apply(apply(s, AllocEvent::Alloc { size, granted: true }), AllocEvent::Dealloc { size }).current
            == s.current,
        apply(apply(s, AllocEvent::Alloc { size, granted: true }), AllocEvent::Dealloc { size }).peak
            >= s.current + size,
{
}

/// No allocator call lowers the peak.
pub proof fn lemma_peak_never_drops(s: CounterState, e: AllocEvent)
    ensures
        apply(s, e).peak >= s.peak,
{
}

/// A peak at or above the live count stays so through any call that frees no
/// more than is live.
pub proof fn lemma_peak_bounds_live(s: CounterState, e: AllocEvent)
    requires
        s.peak >= s.current,
        frees_only_live(s, e),
    ensures
        apply(s, e).peak >= apply(s, e).current,
{
}

/// Over calls that free only live bytes, starting from a peak at or above the
/// live count, the peak is exactly the highest of the starting peak and the
/// live counts after each call; in particular it is at least the live count
/// after every prefix of the calls.
pub proof fn lemma_peak_is_highest_live(s: CounterState, events: Seq<AllocEvent>)
    requires
        s.peak >= s.current,
        trace_frees_only_live(s, events),
    ensures
        replay(s, events).peak == highest_live(s, events),
        replay(s, events).peak >= replay(s, events).current,
        forall|k: int| 0 <= k <= events.len() ==> #[trigger] replay(s, events.take(k)).current <= replay(s, events).peak,
    decreases events.len(),
{
    if events.len() == 0 {
        assert forall|k: int| 0 <= k <= events.len() implies #[trigger] replay(s, events.take(k)).current <= replay(s, events).peak by {
            assert(events.take(k) =~= events);
        }
    } else {
        let prefix = events.drop_last();
        lemma_peak_is_highest_live(s, prefix);
        lemma_peak_bounds_live(replay(s, prefix), events.last());
        lemma_peak_never_drops(replay(s, prefix), events.last());
        assert forall|k: int| 0 <= k <= events.len() implies #[trigger] replay(s, events.take(k)).current <= replay(s, events).peak by {
            if k == events.len() {
                assert(events.take(k) =~= events);
            } else {
                assert(events.take(k) =~= prefix.take(k));
                assert(replay(s, prefix.take(k)).current <= replay(s, prefix).peak);
            }
        }
    }
}

/// A measurement that begins with `initial` bytes live reports, after calls
/// that free only live bytes, the peak growth over `initial`: the highest live
/// count after any of the calls, less `initial`, and never less than zero.
pub proof fn lemma_measured_peak(initial: usize, events: Seq<AllocEvent>)
    requires
        trace_frees_only_live(CounterState { current: initial, peak: initial }, events),
    ensures
        ({
            let s = CounterState { current: initial, peak: initial };
            &&& replay(s, events).peak >= initial
            &&& replay(s, events).peak - initial == highest_live(s, events) - initial
            &&& forall|k: int| 0 <= k <= events.len() ==>
                #[trigger] replay(s, events.take(k)).current - initial <= replay(s, events).peak - initial
        }),
{
    let s = CounterState { current: initial, peak: initial };
    lemma_peak_is_highest_live(s, events);
    lemma_peak_at_least_start(s, events);
}

proof fn lemma_peak_at_least_start(s: CounterState, events: Seq<AllocEvent>)
    ensures
        replay(s, events).peak >= s.peak,
    decreases events.len(),
{
    if events.len() > 0 {
        lemma_peak_at_least_start(s, events.drop_last());
        lemma_peak_never_drops(replay(s, events.drop_last()), events.last());
    }
}

/// Records that `n` more bytes are live, and raises the peak to the new live
/// count if that is higher.
pub fn allocated(counter: &mut AllocCounter, n: usize)
    requires
        old(counter)@.current + n <= usize::MAX,
    ensures
        final(counter)@ == after_allocated(old(counter)@, n),
        final(counter)@.current == old(counter)@.current + n,
{
    let size = counter.current + n;
    counter.current = size;
    if size > counter.peak {
        counter.peak = size;
    }
}

impl AllocCounter {
    /// A counter with nothing live and a zero peak.
    pub fn new() -> (counter: Self)
        ensures
            counter@ == (CounterState { current: 0, peak: 0 }),
    {
        AllocCounter { current: 0, peak: 0 }
    }

    /// The bytes currently live.
    pub fn current(&self) -> (bytes: usize)
        ensures
            bytes == self@.current,
    {
        self.current
    }

    /// The highest live count recorded since the last measurement began.
    pub fn peak(&self) -> (bytes: usize)
        ensures
            bytes == self@.peak,
    {
        self.peak
    }

    /// Records an `alloc` or `alloc_zeroed` of `size` bytes; only a granted
    /// request counts.
    pub fn record_alloc(&mut self, granted: bool, size: usize)
        requires
            granted ==> old(self)@.current + size <= usize::MAX,
        ensures
            final(self)@ == apply(old(self)@, AllocEvent::Alloc { size, granted }),
            granted ==> final(self)@.current == old(self)@.current + size,
            granted ==> final(self)@.peak >= old(self)@.peak && final(self)@.peak >= final(self)@.current,
            !granted ==> final(self)@ == old(self)@,
    {
        if granted {
            allocated(self, size);
        }
    }

    /// Records a `dealloc` of a block of `size` bytes.
    pub fn record_dealloc(&mut self, size: usize)
        ensures
            final(self)@ == apply(old(self)@, AllocEvent::Dealloc { size }),
            size <= old(self)@.current ==> final(self)@.current == old(self)@.current - size,
    {
        self.current = self.current.wrapping_sub(size);
    }

    /// Records a `realloc` from `old_size` to `new_size` bytes; only a granted
    /// request counts, as a free of the old block followed by an allocation of
    /// the new one.
    pub fn record_realloc(&mut self, granted: bool, old_size: usize, new_size: usize)
        requires
            granted ==> old(self)@.current.wrapping_sub(old_size) + new_size <= usize::MAX,
        ensures
            final(self)@ == apply(old(self)@, AllocEvent::Realloc { old_size, new_size, granted }),
            granted && old_size <= old(self)@.current ==> final(self)@.current == old(self)@.current
                - old_size + new_size,
            granted ==> final(self)@.peak >= old(self)@.peak && final(self)@.peak >= final(self)@.current,
            !granted ==> final(self)@ == old(self)@,
    {
        if granted {
            self.current = self.current.wrapping_sub(old_size);
            allocated(self, new_size);
        }
    }

    /// Starts a measurement: the peak is reset to the bytes live now, which
    /// are returned as the baseline.
    pub fn begin_measurement(&mut self) -> (initial: usize)
        ensures
            initial == old(self)@.current,
            final(self)@ == (CounterState { current: old(self)@.current, peak: old(self)@.current }),
    {
        let initial = self.current;
        self.peak = initial;
        initial
    }

    /// The peak growth over the baseline `initial`, or zero when the peak is
    /// below it.
    pub fn peak_since(&self, initial: usize) -> (bytes: usize)
        ensures
            bytes == (if self@.peak >= initial { (self@.peak - initial) as usize } else { 0 }),
    {
        self.peak.saturating_sub(initial)
    }
}

} // verus!
