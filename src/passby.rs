use core::marker::PhantomData;
use vstd::prelude::*;

verus! {

/// Whether a Rust type fits in place of a C type: it is no larger and has the
/// same alignment.
pub open spec fn layout_fits<CType, RType>() -> bool {
    vstd::layout::size_of::<RType>() <= vstd::layout::size_of::<CType>()
        && vstd::layout::align_of::<RType>() == vstd::layout::align_of::<CType>()
}

/// Check that a value of `RType` can be stored in the space of a `CType`: it is
/// no larger and has the same alignment.
pub fn check_size_and_alignment<CType, RType>() -> (r: bool)
    ensures
        r == layout_fits::<CType, RType>(),
{
    core::mem::size_of::<RType>() <= core::mem::size_of::<CType>() && core::mem::align_of::<
        RType,
    >() == core::mem::align_of::<CType>()
}

/// A C type passed by value, standing for a Rust value of another shape.
pub trait PassByValue: Sized {
    /// The Rust type that this C type stands for.
    type RustType;

    /// Convert this C value to the Rust value it stands for.
    fn from_ctype(self) -> Self::RustType;

    /// Convert a Rust value to its C representation.
    fn as_ctype(arg: Self::RustType) -> Self;

    /// Take a C value passed as an argument.
    fn val_from_arg(arg: Self) -> (r: Self::RustType)
        ensures
            call_ensures(Self::from_ctype, (arg,), r),
    {
        arg.from_ctype()
    }

    /// Take a C value out of the place that `arg` refers to, leaving
    /// `replacement` there so that the C side cannot use the old value again.
    fn take_val_from_arg(arg: &mut Self, replacement: Self) -> (r: Self::RustType)
        ensures
            *final(arg) == replacement,
            call_ensures(Self::from_ctype, (*old(arg),), r),
    {
        let mut taken = replacement;
        core::mem::swap(arg, &mut taken);
        taken.from_ctype()
    }

    /// Return a Rust value to C.
    fn return_val(arg: Self::RustType) -> (r: Self)
        ensures
            call_ensures(Self::as_ctype, (arg,), r),
    {
        Self::as_ctype(arg)
    }

    /// Return a Rust value to C through an output parameter.
    fn val_to_arg_out(val: Self::RustType, arg_out: &mut Self)
        ensures
            call_ensures(Self::as_ctype, (val,), *final(arg_out)),
    {
        *arg_out = Self::as_ctype(val);
    }
}

/// A Rust type handed to C only as a pointer to a Rust-owned allocation;
/// here that pointer is a `Box`.
pub trait PassByPointer: Sized {
    /// Take back ownership of a value passed from C, freeing its allocation.
    fn take_from_ptr_arg(arg: Box<Self>) -> (r: Self)
        ensures
            r == *arg,
    {
        *arg
    }

    /// Return a value to C, moving it into a new allocation that C owns.
    fn return_ptr(self) -> (r: Box<Self>)
        ensures
            *r == self,
    {
        Box::new(self)
    }

    /// Return a value to C through an output parameter.
    fn ptr_to_arg_out(self, arg_out: &mut Option<Box<Self>>)
        ensures
            *final(arg_out) == Some(Box::new(self)),
    {
        *arg_out = Some(Box::new(self));
    }
}

/// Pass-by-value marshaling between a Rust type and a C type that converts
/// from and into it.
pub struct Value<RType, CType> {
    _phantom: PhantomData<(RType, CType)>,
}

impl<RType, CType: From<RType> + Into<RType>> Value<RType, CType> {
    /// Take a C value and return the Rust value it stands for.
    pub fn take(cval: CType) -> (r: RType)
        ensures
            call_ensures(CType::into, (cval,), r),
    {
        cval.into()
    }

    /// Return the C value for `rval`.
    pub fn return_val(rval: RType) -> (r: CType)
        ensures
            call_ensures(CType::from, (rval,), r),
    {
        CType::from(rval)
    }

    /// Write the C value for `rval` to the output parameter, if there is one;
    /// without one, `rval` is dropped.
    pub fn to_out_param(rval: RType, arg_out: Option<&mut CType>)
        ensures
            match arg_out {
                Some(p) => call_ensures(CType::from, (rval,), *final(p)),
                None => true,
            },
    {
        if let Some(p) = arg_out {
            *p = CType::from(rval);
        }
    }

    /// Write the C value for `rval` to the output parameter.
    pub fn to_out_param_nonnull(rval: RType, arg_out: &mut CType)
        ensures
            call_ensures(CType::from, (rval,), *final(arg_out)),
    {
        *arg_out = CType::from(rval);
    }
}

/// Values owned by Rust and handed to C as a pointer to their allocation;
/// here that pointer is a `Box`, and a pointer that may be NULL an `Option`.
pub struct Boxed<RType> {
    _phantom: PhantomData<RType>,
}

impl<RType> Boxed<RType> {
    /// Move `rval` into a new allocation owned by the caller.
    pub fn return_val(rval: RType) -> (r: Box<RType>)
        ensures
            *r == rval,
    {
        Box::new(rval)
    }

    /// Take back ownership of a value returned earlier, freeing its allocation.
    pub fn take_nonnull(arg: Box<RType>) -> (r: RType)
        ensures
            r == *arg,
    {
        *arg
    }

    /// Call `f` with a shared reference to the value.
    pub fn with_ref_nonnull<T, F: FnOnce(&RType) -> T>(arg: &RType, f: F) -> (r: T)
        requires
            f.requires((arg,)),
        ensures
            f.ensures((arg,), r),
    {
        f(arg)
    }

    /// Take back ownership of a value returned earlier; the pointer must not be
    /// NULL.
    pub fn take(arg: Option<Box<RType>>) -> (r: RType)
        requires
            arg is Some,
        ensures
            r == *arg->0,
    {
        *arg.unwrap()
    }

    /// Store a new allocation holding `rval` in the output slot, if there is
    /// one; without one, `rval` is dropped.
    pub fn to_out_param(rval: RType, arg_out: Option<&mut Option<Box<RType>>>)
        ensures
            match arg_out {
                Some(p) => *final(p) == Some(Box::new(rval)),
                None => true,
            },
    {
        if let Some(p) = arg_out {
            *p = Some(Box::new(rval));
        }
    }

    /// Store a new allocation holding `rval` in the output slot.
    pub fn to_out_param_nonnull(rval: RType, arg_out: &mut Option<Box<RType>>)
        ensures
            *final(arg_out) == Some(Box::new(rval)),
    {
        *arg_out = Some(Box::new(rval));
    }
}

impl<RType: Default> Boxed<RType> {
    /// Call `f` with a shared reference to the value; for a NULL pointer, with
    /// a reference to a default value that is dropped afterwards.
    pub fn with_ref<T, F: FnOnce(&RType) -> T>(arg: Option<&RType>, f: F) -> (r: T)
        requires
            match arg {
                Some(v) => f.requires((v,)),
                None => forall|d: RType| call_ensures(RType::default, (), d) ==> f.requires((&d,)),
            },
        ensures
            match arg {
                Some(v) => f.ensures((v,), r),
                None => exists|d: RType| call_ensures(RType::default, (), d) && f.ensures((&d,), r),
            },
    {
        match arg {
            Some(v) => f(v),
            None => {
                let null_value = RType::default();
                f(&null_value)
            },
        }
    }
}

} // verus!
