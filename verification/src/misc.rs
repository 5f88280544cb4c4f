//! Small application-level helpers: error carriers and a generic update.

use vstd::prelude::*;

verus! {

/// Why a design file could not be loaded.
pub struct LoadDesignError(pub String);

impl From<String> for LoadDesignError {
    fn from(s: String) -> (r: Self) {
        LoadDesignError(s)
    }
}

impl vstd::std_specs::convert::FromSpecImpl<String> for LoadDesignError {
    open spec fn obeys_from_spec() -> bool {
        true
    }

    open spec fn from_spec(s: String) -> Self {
        LoadDesignError(s)
    }
}

/// Why a design could not be saved.
pub struct SaveDesignError(pub String);

impl From<String> for SaveDesignError {
    fn from(s: String) -> (r: Self) {
        SaveDesignError(s)
    }
}

impl vstd::std_specs::convert::FromSpecImpl<String> for SaveDesignError {
    open spec fn obeys_from_spec() -> bool {
        true
    }

    open spec fn from_spec(s: String) -> Self {
        SaveDesignError(s)
    }
}

/// Replace a value by a function of itself.
pub fn apply_update<T: Clone, F: FnOnce(T) -> T>(obj: &mut T, update_func: F)
    requires
        forall|x: T| #[trigger] cloned::<T>(*old(obj), x) ==> update_func.requires((x,)),
    ensures
        exists|x: T| #[trigger] cloned::<T>(*old(obj), x) && update_func.ensures((x,), *final(obj)),
{
    let tmp = obj.clone();
    proof {
        assert(cloned::<T>(*old(obj), tmp));
    }
    let ghost snapshot = tmp;
    *obj = update_func(tmp);
    proof {
        assert(cloned::<T>(*old(obj), snapshot) && update_func.ensures((snapshot,), *obj));
    }
}

} // verus!
