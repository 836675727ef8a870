//! Tunable limits that decide when work is spread over threads and when operands are packed.

use vstd::prelude::*;

verus! {

/// Amount of work, in multiplications, above which threads are used.
pub const DEFAULT_THREADING_THRESHOLD: usize = 589_824;

/// Number of tiles on top of one another above which a contiguous right operand is packed.
pub const DEFAULT_RHS_PACKING_THRESHOLD: usize = 128;

/// Number of tiles side by side above which the left operand is packed, on one thread.
pub const DEFAULT_LHS_PACKING_THRESHOLD_SINGLE_THREAD: usize = 8;

/// Number of tiles side by side above which the left operand is packed, on several threads.
pub const DEFAULT_LHS_PACKING_THRESHOLD_MULTI_THREAD: usize = 16;

/// Largest value that a packing threshold can have.
pub const MAX_PACKING_THRESHOLD: usize = 256;

/// The current thresholds. The packing thresholds never exceed [`MAX_PACKING_THRESHOLD`].
pub struct Thresholds {
    threading: usize,
    rhs_packing: usize,
    lhs_packing_single_thread: usize,
    lhs_packing_multi_thread: usize,
}

/// The mathematical content of [`Thresholds`].
pub struct ThresholdValues {
    pub threading: int,
    pub rhs_packing: int,
    pub lhs_packing_single_thread: int,
    pub lhs_packing_multi_thread: int,
}

impl View for Thresholds {
    type V = ThresholdValues;

    closed spec fn view(&self) -> ThresholdValues {
        ThresholdValues {
            threading: self.threading as int,
            rhs_packing: self.rhs_packing as int,
            lhs_packing_single_thread: self.lhs_packing_single_thread as int,
            lhs_packing_multi_thread: self.lhs_packing_multi_thread as int,
        }
    }
}

/// The smaller of `value` and the largest packing threshold.
pub open spec fn capped(value: int) -> int {
    if value < MAX_PACKING_THRESHOLD {
        value
    } else {
        MAX_PACKING_THRESHOLD as int
    }
}

impl ThresholdValues {
    /// What every set of thresholds satisfies.
    pub open spec fn in_range(self) -> bool {
        &&& 0 <= self.threading <= usize::MAX
        &&& 0 <= self.rhs_packing <= MAX_PACKING_THRESHOLD
        &&& 0 <= self.lhs_packing_single_thread <= MAX_PACKING_THRESHOLD
        &&& 0 <= self.lhs_packing_multi_thread <= MAX_PACKING_THRESHOLD
    }
}

impl Thresholds {
    #[verifier::type_invariant]
    spec fn capped_packing(self) -> bool {
        &&& self.rhs_packing <= MAX_PACKING_THRESHOLD
        &&& self.lhs_packing_single_thread <= MAX_PACKING_THRESHOLD
        &&& self.lhs_packing_multi_thread <= MAX_PACKING_THRESHOLD
    }

    /// The default thresholds.
    pub fn new() -> (t: Thresholds)
        ensures
            t@.threading == DEFAULT_THREADING_THRESHOLD,
            t@.rhs_packing == DEFAULT_RHS_PACKING_THRESHOLD,
            t@.lhs_packing_single_thread == DEFAULT_LHS_PACKING_THRESHOLD_SINGLE_THREAD,
            t@.lhs_packing_multi_thread == DEFAULT_LHS_PACKING_THRESHOLD_MULTI_THREAD,
    {
        Thresholds {
            threading: DEFAULT_THREADING_THRESHOLD,
            rhs_packing: DEFAULT_RHS_PACKING_THRESHOLD,
            lhs_packing_single_thread: DEFAULT_LHS_PACKING_THRESHOLD_SINGLE_THREAD,
            lhs_packing_multi_thread: DEFAULT_LHS_PACKING_THRESHOLD_MULTI_THREAD,
        }
    }
}

impl Default for Thresholds {
    fn default() -> (t: Thresholds)
        ensures
            t@.threading == DEFAULT_THREADING_THRESHOLD,
            t@.rhs_packing == DEFAULT_RHS_PACKING_THRESHOLD,
            t@.lhs_packing_single_thread == DEFAULT_LHS_PACKING_THRESHOLD_SINGLE_THREAD,
            t@.lhs_packing_multi_thread == DEFAULT_LHS_PACKING_THRESHOLD_MULTI_THREAD,
    {
        Thresholds::new()
    }
}

fn cap(value: usize) -> (r: usize)
    ensures
        r == capped(value as int),
{
    if value < MAX_PACKING_THRESHOLD {
        value
    } else {
        MAX_PACKING_THRESHOLD
    }
}

/// Amount of work above which threads are used.
pub fn get_threading_threshold(t: &Thresholds) -> (r: usize)
    ensures
        r == t@.threading,
        t@.in_range(),
{
    proof {
        use_type_invariant(t);
    }
    t.threading
}

/// Sets the amount of work above which threads are used.
pub fn set_threading_threshold(t: &mut Thresholds, value: usize)
    ensures
        final(t)@ == (ThresholdValues { threading: value as int, ..old(t)@ }),
{
    proof {
        use_type_invariant(&*t);
    }
    t.threading = value;
}

/// Number of tiles on top of one another above which a contiguous right operand is packed.
pub fn get_rhs_packing_threshold(t: &Thresholds) -> (r: usize)
    ensures
        r == t@.rhs_packing,
        t@.in_range(),
{
    proof {
        use_type_invariant(t);
    }
    t.rhs_packing
}

/// Sets the number of tiles on top of one another above which a contiguous right operand is
/// packed. Larger values than [`MAX_PACKING_THRESHOLD`] are lowered to it.
pub fn set_rhs_packing_threshold(t: &mut Thresholds, value: usize)
    ensures
        final(t)@ == (ThresholdValues { rhs_packing: capped(value as int), ..old(t)@ }),
{
    proof {
        use_type_invariant(&*t);
    }
    t.rhs_packing = cap(value);
}

/// Number of tiles side by side above which the left operand is packed, on one thread.
pub fn get_lhs_packing_threshold_single_thread(t: &Thresholds) -> (r: usize)
    ensures
        r == t@.lhs_packing_single_thread,
        t@.in_range(),
{
    proof {
        use_type_invariant(t);
    }
    t.lhs_packing_single_thread
}

/// Sets the number of tiles side by side above which the left operand is packed on one thread.
/// Larger values than [`MAX_PACKING_THRESHOLD`] are lowered to it.
pub fn set_lhs_packing_threshold_single_thread(t: &mut Thresholds, value: usize)
    ensures
        final(t)@ == (ThresholdValues {
            lhs_packing_single_thread: capped(value as int),
            ..old(t)@
        }),
{
    proof {
        use_type_invariant(&*t);
    }
    t.lhs_packing_single_thread = cap(value);
}

/// Number of tiles side by side above which the left operand is packed, on several threads.
pub fn get_lhs_packing_threshold_multi_thread(t: &Thresholds) -> (r: usize)
    ensures
        r == t@.lhs_packing_multi_thread,
        t@.in_range(),
{
    proof {
        use_type_invariant(t);
    }
    t.lhs_packing_multi_thread
}

/// Sets the number of tiles side by side above which the left operand is packed on several
/// threads. Larger values than [`MAX_PACKING_THRESHOLD`] are lowered to it.
pub fn set_lhs_packing_threshold_multi_thread(t: &mut Thresholds, value: usize)
    ensures
        final(t)@ == (ThresholdValues { lhs_packing_multi_thread: capped(value as int), ..old(t)@ }),
{
    proof {
        use_type_invariant(&*t);
    }
    t.lhs_packing_multi_thread = cap(value);
}

/// A packing threshold that is read back is what was set, or the largest possible one where that is
/// smaller; setting it again changes nothing.
pub proof fn law_capped(value: int)
    requires
        0 <= value,
    ensures
        0 <= capped(value) <= MAX_PACKING_THRESHOLD,
        value <= MAX_PACKING_THRESHOLD ==> capped(value) == value,
        capped(value) <= value,
        capped(capped(value)) == capped(value),
{
}

/// What is set is read back: the amount of work as it is, a number of tiles up to 256 as it is, and 256 for
/// any larger one. Setting one threshold leaves the others alone.
pub proof fn law_set_and_get(t: &mut Thresholds, value: usize)
    ensures
        call_ensures(set_threading_threshold, (t, value), ()) ==> {
            &&& final(t)@.threading == value
            &&& final(t)@.rhs_packing == old(t)@.rhs_packing
            &&& final(t)@.lhs_packing_single_thread == old(t)@.lhs_packing_single_thread
            &&& final(t)@.lhs_packing_multi_thread == old(t)@.lhs_packing_multi_thread
        },
        call_ensures(set_rhs_packing_threshold, (t, value), ()) ==> {
            &&& value <= 256 ==> final(t)@.rhs_packing == value
            &&& value > 256 ==> final(t)@.rhs_packing == 256
            &&& final(t)@.threading == old(t)@.threading
            &&& final(t)@.lhs_packing_single_thread == old(t)@.lhs_packing_single_thread
            &&& final(t)@.lhs_packing_multi_thread == old(t)@.lhs_packing_multi_thread
        },
        call_ensures(set_lhs_packing_threshold_single_thread, (t, value), ()) ==> {
            &&& value <= 256 ==> final(t)@.lhs_packing_single_thread == value
            &&& value > 256 ==> final(t)@.lhs_packing_single_thread == 256
            &&& final(t)@.threading == old(t)@.threading
            &&& final(t)@.rhs_packing == old(t)@.rhs_packing
            &&& final(t)@.lhs_packing_multi_thread == old(t)@.lhs_packing_multi_thread
        },
        call_ensures(set_lhs_packing_threshold_multi_thread, (t, value), ()) ==> {
            &&& value <= 256 ==> final(t)@.lhs_packing_multi_thread == value
            &&& value > 256 ==> final(t)@.lhs_packing_multi_thread == 256
            &&& final(t)@.threading == old(t)@.threading
            &&& final(t)@.rhs_packing == old(t)@.rhs_packing
            &&& final(t)@.lhs_packing_single_thread == old(t)@.lhs_packing_single_thread
        },
{
}

/// Each threshold is read by its own function, and the first thresholds are the default ones.
pub proof fn law_get(t: Thresholds)
    ensures
        forall|r: usize| #[trigger]
            call_ensures(get_threading_threshold, (&t,), r) ==> r == t@.threading,
        forall|r: usize| #[trigger]
            call_ensures(get_rhs_packing_threshold, (&t,), r) ==> r == t@.rhs_packing,
        forall|r: usize| #[trigger]
            call_ensures(get_lhs_packing_threshold_single_thread, (&t,), r) ==> r
                == t@.lhs_packing_single_thread,
        forall|r: usize| #[trigger]
            call_ensures(get_lhs_packing_threshold_multi_thread, (&t,), r) ==> r
                == t@.lhs_packing_multi_thread,
        forall|r: Thresholds| #[trigger]
            call_ensures(Thresholds::new, (), r) ==> {
                &&& r@.threading == 48 * 48 * 256
                &&& r@.rhs_packing == 128
                &&& r@.lhs_packing_single_thread == 8
                &&& r@.lhs_packing_multi_thread == 16
            },
        forall|r: Thresholds| #[trigger]
            call_ensures(<Thresholds as Default>::default, (), r) ==> {
                &&& r@.threading == 48 * 48 * 256
                &&& r@.rhs_packing == 128
                &&& r@.lhs_packing_single_thread == 8
                &&& r@.lhs_packing_multi_thread == 16
            },
{
}

} // verus!
