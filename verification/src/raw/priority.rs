//! Source priority.
//!
//! Every source of configuration data carries a precedence between 0 and 15.
//! When two sources define the same key, the one with the larger priority
//! wins; with equal priorities the duplicate strategy of the later source
//! decides.
use vstd::prelude::*;
use vstd::std_specs::convert::FromSpecImpl;

verus! {

/// The largest priority a source can have.
pub const MAX_PRIORITY: u32 = 15;

/// The nearest legal priority to `n`: 0 below the range, 15 above it.
pub open spec fn clamp(n: int) -> nat {
    if n < 0 {
        0
    } else if n > 15 {
        15
    } else {
        n as nat
    }
}

/// Precedence of a source, always within `0..=15`.
#[derive(Debug, Eq, PartialEq, Copy, Clone, Structural)]
pub struct Priority(u32);

impl View for Priority {
    type V = nat;

    closed spec fn view(&self) -> nat {
        self.0 as nat
    }
}

impl Priority {
    #[verifier::type_invariant]
    spec fn in_range(self) -> bool {
        self.0 <= 15
    }

    /// The priority whose number is `n`, for `n` within the legal range.
    pub closed spec fn of(n: nat) -> Priority {
        Priority(n as u32)
    }

    /// A priority is determined by its number.
    pub broadcast proof fn lemma_of_view(n: nat)
        requires
            n <= 15,
        ensures
            #[trigger] Priority::of(n)@ == n,
    {
    }

    /// Two priorities with the same number are the same priority.
    pub proof fn lemma_view_injective(p: Priority, q: Priority)
        ensures
            p@ == q@ <==> p == q,
    {
    }

    #[inline(always)]
    fn normalize_unsigned(source: u64) -> (p: Priority)
        ensures
            p@ == clamp(source as int),
            p == Priority::of(clamp(source as int)),
    {
        let priority: u32 = if source > 15 {
            15
        } else {
            source as u32
        };
        Priority(priority)
    }

    #[inline(always)]
    fn normalize_signed(source: i64) -> (p: Priority)
        ensures
            p@ == clamp(source as int),
            p == Priority::of(clamp(source as int)),
    {
        let priority: u32 = if source > 15 {
            15
        } else if source < 0 {
            0
        } else {
            source as u32
        };
        Priority(priority)
    }

    /// Create a priority. Values outside of the `0..=15` range are changed to
    /// the nearest legal number.
    #[inline(always)]
    pub fn new(priority: u32) -> (p: Priority)
        ensures
            p@ == clamp(priority as int),
            p == Priority::of(clamp(priority as int)),
    {
        Priority::normalize_unsigned(priority as u64)
    }

    /// The number of this priority.
    #[inline(always)]
    pub fn as_c_uint(&self) -> (n: u32)
        ensures
            n == self@,
            n <= 15,
    {
        proof {
            use_type_invariant(self);
        }
        self.0
    }
}

impl Default for Priority {
    fn default() -> (p: Priority)
        ensures
            p@ == 0,
            p == Priority::of(0),
    {
        Priority(0)
    }
}

impl From<u64> for Priority {
    fn from(source: u64) -> (p: Priority)
        ensures
            p@ == clamp(source as int),
    {
        Priority::normalize_unsigned(source)
    }
}

impl FromSpecImpl<u64> for Priority {
    open spec fn obeys_from_spec() -> bool {
        true
    }

    open spec fn from_spec(v: u64) -> Priority {
        Priority::of(clamp(v as int))
    }
}

impl From<u32> for Priority {
    fn from(source: u32) -> (p: Priority)
        ensures
            p@ == clamp(source as int),
    {
        Priority::normalize_unsigned(source as u64)
    }
}

impl FromSpecImpl<u32> for Priority {
    open spec fn obeys_from_spec() -> bool {
        true
    }

    open spec fn from_spec(v: u32) -> Priority {
        Priority::of(clamp(v as int))
    }
}

impl From<u16> for Priority {
    fn from(source: u16) -> (p: Priority)
        ensures
            p@ == clamp(source as int),
    {
        Priority::normalize_unsigned(source as u64)
    }
}

impl FromSpecImpl<u16> for Priority {
    open spec fn obeys_from_spec() -> bool {
        true
    }

    open spec fn from_spec(v: u16) -> Priority {
        Priority::of(clamp(v as int))
    }
}

impl From<u8> for Priority {
    fn from(source: u8) -> (p: Priority)
        ensures
            p@ == clamp(source as int),
    {
        Priority::normalize_unsigned(source as u64)
    }
}

impl FromSpecImpl<u8> for Priority {
    open spec fn obeys_from_spec() -> bool {
        true
    }

    open spec fn from_spec(v: u8) -> Priority {
        Priority::of(clamp(v as int))
    }
}

impl From<i64> for Priority {
    fn from(source: i64) -> (p: Priority)
        ensures
            p@ == clamp(source as int),
    {
        Priority::normalize_signed(source)
    }
}

impl FromSpecImpl<i64> for Priority {
    open spec fn obeys_from_spec() -> bool {
        true
    }

    open spec fn from_spec(v: i64) -> Priority {
        Priority::of(clamp(v as int))
    }
}

impl From<i32> for Priority {
    fn from(source: i32) -> (p: Priority)
        ensures
            p@ == clamp(source as int),
    {
        Priority::normalize_signed(source as i64)
    }
}

impl FromSpecImpl<i32> for Priority {
    open spec fn obeys_from_spec() -> bool {
        true
    }

    open spec fn from_spec(v: i32) -> Priority {
        Priority::of(clamp(v as int))
    }
}

impl From<i16> for Priority {
    fn from(source: i16) -> (p: Priority)
        ensures
            p@ == clamp(source as int),
    {
        Priority::normalize_signed(source as i64)
    }
}

impl FromSpecImpl<i16> for Priority {
    open spec fn obeys_from_spec() -> bool {
        true
    }

    open spec fn from_spec(v: i16) -> Priority {
        Priority::of(clamp(v as int))
    }
}

impl From<i8> for Priority {
    fn from(source: i8) -> (p: Priority)
        ensures
            p@ == clamp(source as int),
    {
        Priority::normalize_signed(source as i64)
    }
}

impl FromSpecImpl<i8> for Priority {
    open spec fn obeys_from_spec() -> bool {
        true
    }

    open spec fn from_spec(v: i8) -> Priority {
        Priority::of(clamp(v as int))
    }
}

} // verus!
