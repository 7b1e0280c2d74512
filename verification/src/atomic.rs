use vstd::prelude::*;
use std::sync::atomic::AtomicU64;
use std::sync::atomic::Ordering;

verus! {

/// An ordering a load may use: std panics on `Release` and `AcqRel`. It is
/// also what the failure ordering of a compare-exchange may be.
pub open spec fn load_ordering(ordering: Ordering) -> bool {
    ordering != Ordering::Release && ordering != Ordering::AcqRel
}

/// An ordering a store may use: std panics on `Acquire` and `AcqRel`.
pub open spec fn store_ordering(ordering: Ordering) -> bool {
    ordering != Ordering::Acquire && ordering != Ordering::AcqRel
}

/// An integer type that has a hardware atomic cell of its own width.
///
/// Other threads may change the cell at any time, so nothing is known of
/// what a load reads; what is known is what a compare-exchange promises
/// when it succeeds.
pub trait HasAtomic: Sized {
    type Impl;

    fn new(val: Self) -> Self::Impl;

    fn load(this: &Self::Impl, ordering: Ordering) -> Self
        requires
            load_ordering(ordering),
    ;

    fn store(this: &Self::Impl, new: Self, ordering: Ordering)
        requires
            store_ordering(ordering),
    ;

    /// Replaces the content by `new` if it is `current`; may fail spuriously.
    /// On success the value returned is the one replaced, that is `current`.
    fn compare_exchange_weak(
        this: &Self::Impl,
        current: Self,
        new: Self,
        success: Ordering,
        failure: Ordering,
    ) -> (r: Result<Self, Self>)
        requires
            load_ordering(failure),
        ensures
            r matches Ok(v) ==> v == current,
    ;

    fn swap(this: &Self::Impl, new: Self, ordering: Ordering) -> Self;
}

/// `AtomicU64::compare_exchange_weak`. It panics when the failure ordering
/// is `Release` or `AcqRel`, which `requires` leaves out. Its documentation
/// promises that on success the returned value, the previous content,
/// equals `current`; on failure it returns the content found, of which
/// nothing is stated.
#[verifier::external_body]
fn u64_compare_exchange_weak(
    this: &AtomicU64,
    current: u64,
    new: u64,
    success: Ordering,
    failure: Ordering,
) -> (r: Result<u64, u64>)
    requires
        load_ordering(failure),
    ensures
        r matches Ok(v) ==> v == current,
{
    this.compare_exchange_weak(current, new, success, failure)
}

impl HasAtomic for u64 {
    type Impl = AtomicU64;

    /// `AtomicU64::new` of `val`.
    fn new(val: u64) -> (r: AtomicU64)
        ensures
            call_ensures(AtomicU64::new, (val,), r),
    {
        AtomicU64::new(val)
    }

    /// `AtomicU64::load` with `ordering`.
    fn load(this: &AtomicU64, ordering: Ordering) -> (r: u64)
        ensures
            call_ensures(AtomicU64::load, (this, ordering), r),
    {
        this.load(ordering)
    }

    /// `AtomicU64::store` of `new` with `ordering`.
    fn store(this: &AtomicU64, new: u64, ordering: Ordering)
        ensures
            call_ensures(AtomicU64::store, (this, new, ordering), ()),
    {
        this.store(new, ordering)
    }

    fn compare_exchange_weak(
        this: &AtomicU64,
        current: u64,
        new: u64,
        success: Ordering,
        failure: Ordering,
    ) -> (r: Result<u64, u64>) {
        u64_compare_exchange_weak(this, current, new, success, failure)
    }

    /// `AtomicU64::swap` of `new` with `ordering`.
    fn swap(this: &AtomicU64, new: u64, ordering: Ordering) -> (r: u64)
        ensures
            call_ensures(AtomicU64::swap, (this, new, ordering), r),
    {
        this.swap(new, ordering)
    }
}

/// A value that can be packed into, and unpacked from, a raw integer that
/// has an atomic cell. Only the values for which `packable` holds have an
/// encoding; every raw integer decodes to such a value.
pub trait AtomicPackable: Sized {
    type Raw: HasAtomic;

    spec fn packable(val: Self) -> bool;

    spec fn encoded(val: Self) -> Self::Raw;

    spec fn decoded(raw: Self::Raw) -> Self;

    fn encode(val: Self) -> (r: Self::Raw)
        requires
            Self::packable(val),
        ensures
            r == Self::encoded(val),
    ;

    fn decode(raw: Self::Raw) -> (r: Self)
        ensures
            r == Self::decoded(raw),
    ;

    /// Unpacking a packed value gives it back.
    proof fn lemma_round_trip(val: Self)
        requires
            Self::packable(val),
        ensures
            Self::decoded(Self::encoded(val)) == val,
    ;

    /// Whatever is unpacked can be packed again.
    proof fn lemma_decoded_packable(raw: Self::Raw)
        ensures
            Self::packable(Self::decoded(raw)),
    ;
}

impl AtomicPackable for u64 {
    type Raw = u64;

    open spec fn packable(val: u64) -> bool {
        true
    }

    open spec fn encoded(val: u64) -> u64 {
        val
    }

    open spec fn decoded(raw: u64) -> u64 {
        raw
    }

    fn encode(val: u64) -> (r: u64) {
        val
    }

    fn decode(raw: u64) -> (r: u64) {
        raw
    }

    proof fn lemma_round_trip(val: u64) {
    }

    proof fn lemma_decoded_packable(raw: u64) {
    }
}

/// The integer type of twice the width.
pub trait Double {
    type Output;
}

impl Double for u8 {
    type Output = u16;
}

impl Double for u16 {
    type Output = u32;
}

impl Double for u32 {
    type Output = u64;
}

impl Double for u64 {
    type Output = u128;
}

/// An atomic cell that holds a value of `T` in its packed form.
pub struct Atomic<T: AtomicPackable>(<T::Raw as HasAtomic>::Impl);

impl<T: AtomicPackable> Atomic<T> {
    /// The hardware cell that holds the packed value.
    pub closed spec fn cell(&self) -> <T::Raw as HasAtomic>::Impl {
        self.0
    }

    /// A cell made by the raw type's `new` from the packed `val`.
    pub fn new(val: T) -> (r: Self)
        requires
            T::packable(val),
        ensures
            call_ensures(T::Raw::new, (T::encoded(val),), r.cell()),
    {
        Atomic(T::Raw::new(T::encode(val)))
    }

    /// Reads the value: what the raw cell's `load` with `ordering` gives,
    /// unpacked. Other threads may have stored anything packable.
    pub fn load(&self, ordering: Ordering) -> (r: T) where T: Copy
        requires
            load_ordering(ordering),
        ensures
            T::packable(r),
            exists|raw: T::Raw| #[trigger] call_ensures(T::Raw::load, (&self.cell(), ordering), raw)
                && r == T::decoded(raw),
    {
        let raw = T::Raw::load(&self.0, ordering);
        proof {
            T::lemma_decoded_packable(raw);
        }
        T::decode(raw)
    }

    /// Stores `new`, packed, by the raw cell's `store` with `ordering`.
    pub fn store(&self, new: T, ordering: Ordering) where T: Copy
        requires
            T::packable(new),
            store_ordering(ordering),
        ensures
            call_ensures(T::Raw::store, (&self.cell(), T::encoded(new), ordering), ()),
    {
        T::Raw::store(&self.0, T::encode(new), ordering)
    }

    /// Replaces the value by `new` if it is `current`; may fail spuriously.
    /// The raw cell's compare-exchange is handed the packed values and both
    /// orderings, and its answer is unpacked: on success it is `current`; on
    /// failure it is the value found.
    pub fn compare_exchange_weak(
        &self,
        current: T,
        new: T,
        success: Ordering,
        failure: Ordering,
    ) -> (r: Result<T, T>) where T: Copy
        requires
            T::packable(current),
            T::packable(new),
            load_ordering(failure),
        ensures
            r matches Ok(v) ==> v == current,
            match r {
                Ok(v) => T::packable(v),
                Err(v) => T::packable(v),
            },
            exists|res: Result<T::Raw, T::Raw>|
                #[trigger] call_ensures(
                    T::Raw::compare_exchange_weak,
                    (&self.cell(), T::encoded(current), T::encoded(new), success, failure),
                    res,
                ) && r == match res {
                    Ok(v) => Ok::<T, T>(T::decoded(v)),
                    Err(v) => Err::<T, T>(T::decoded(v)),
                },
    {
        let packed_current = T::encode(current);
        let packed_new = T::encode(new);
        let res = T::Raw::compare_exchange_weak(&self.0, packed_current, packed_new, success, failure);
        match res {
            Ok(ok) => {
                proof {
                    T::lemma_round_trip(current);
                }
                Ok(T::decode(ok))
            },
            Err(err) => {
                proof {
                    T::lemma_decoded_packable(err);
                }
                Err(T::decode(err))
            },
        }
    }

    /// Replaces the value by `new` if it is `*current`, by the raw cell's
    /// compare-exchange on the packed values. On success `*current` becomes
    /// `new` and the result is `true`; on failure `*current` becomes the
    /// value found and the result is `false`.
    pub fn compare_update_weak(
        &self,
        current: &mut T,
        new: T,
        success: Ordering,
        failure: Ordering,
    ) -> (r: bool) where T: Copy
        requires
            T::packable(*old(current)),
            T::packable(new),
            load_ordering(failure),
        ensures
            r ==> *final(current) == new,
            T::packable(*final(current)),
            exists|res: Result<T::Raw, T::Raw>|
                #[trigger] call_ensures(
                    T::Raw::compare_exchange_weak,
                    (&self.cell(), T::encoded(*old(current)), T::encoded(new), success, failure),
                    res,
                ) && (r <==> res is Ok) && (res matches Err(v) ==> *final(current) == T::decoded(v)),
    {
        match self.compare_exchange_weak(*current, new, success, failure) {
            Ok(_) => {
                *current = new;
                true
            },
            Err(actual) => {
                *current = actual;
                false
            },
        }
    }

    /// Stores `new` and returns the value it replaced: what the raw cell's
    /// `swap` of the packed `new` with `ordering` gives, unpacked.
    pub fn swap(&self, new: T, ordering: Ordering) -> (r: T)
        requires
            T::packable(new),
        ensures
            T::packable(r),
            exists|raw: T::Raw| #[trigger] call_ensures(T::Raw::swap, (&self.cell(), T::encoded(new), ordering), raw)
                && r == T::decoded(raw),
    {
        let raw = T::Raw::swap(&self.0, T::encode(new), ordering);
        proof {
            T::lemma_decoded_packable(raw);
        }
        T::decode(raw)
    }
}

} // verus!
