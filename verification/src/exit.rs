use vstd::prelude::*;

verus! {

/// A result that the program either continues with or stops on.
///
/// `ok_or_exit` hands back the value to continue with. A value on which the
/// program must stop (an error, reported by the program's shell) does not
/// meet `continues`, so the method is never called on it.
pub trait OkOrExit: Sized {
    type OkType;

    /// Whether the program may continue with this value.
    spec fn continues(&self) -> bool;

    /// The value the program continues with.
    spec fn continued_with(&self) -> Self::OkType;

    fn ok_or_exit(self) -> (t: Self::OkType)
        requires
            self.continues(),
        ensures
            t == self.continued_with(),
    ;
}

impl<T, E> OkOrExit for Result<T, E> {
    type OkType = T;

    open spec fn continues(&self) -> bool {
        self is Ok
    }

    open spec fn continued_with(&self) -> T {
        self->Ok_0
    }

    fn ok_or_exit(self) -> (t: T) {
        match self {
            Ok(t) => t,
            Err(_) => unreached(),
        }
    }
}

} // verus!
