use vstd::prelude::*;

verus! {

/// A value computed by `func` the first time it is asked for, and kept.
#[verifier::reject_recursive_types(T)]
pub struct LazyLock<T, F: FnOnce() -> T> {
    func: Option<F>,
    inner: Option<T>,
}

impl<T, F: FnOnce() -> T> LazyLock<T, F> {
    /// The value, once it has been computed.
    pub closed spec fn value(&self) -> Option<T> {
        self.inner
    }

    /// The function that computes the value, while it has not been called.
    pub closed spec fn initializer(&self) -> Option<F> {
        self.func
    }

    /// Exactly one of the two is there: the function or its value.
    pub closed spec fn wf(&self) -> bool {
        self.func is Some <==> self.inner is None
    }

    /// A lock whose value `func` will compute.
    pub fn new(func: F) -> (r: Self)
        ensures
            r.wf(),
            r.value() is None,
            r.initializer() == Some(func),
    {
        Self { func: Some(func), inner: None }
    }

    /// What one call of `force` does, going from `before` to `after` and
    /// returning `r`: the first call computes the value with the function and
    /// keeps it; a later call returns the kept value and changes nothing.
    pub open spec fn forces(before: Self, after: Self, r: T) -> bool {
        &&& after.wf()
        &&& after.value() == Some(r)
        &&& after.initializer() is None
        &&& before.value() matches Some(v) ==> r == v && after == before
        &&& before.value() is None ==> call_ensures(before.initializer()->Some_0, (), r)
    }

    /// The value: computed by the function on the first call, the kept one
    /// after that.
    pub fn force(&mut self) -> (r: &T)
        requires
            old(self).wf(),
            old(self).value() is None ==> call_requires(old(self).initializer()->Some_0, ()),
        ensures
            Self::forces(*old(self), *final(self), *r),
    {
        if self.inner.is_none() {
            let f = self.func.take().unwrap();
            let val = f();
            self.inner = Some(val);
        }
        self.inner.as_ref().unwrap()
    }

    /// Any number of calls of `force`, one after the other on a new lock:
    /// the function runs only in the first call, its result is what every
    /// call returns, and from the first call on the lock no longer holds the
    /// function.
    pub proof fn law_force_computes_once(locks: Seq<Self>, results: Seq<T>)
        requires
            results.len() >= 1,
            locks.len() == results.len() + 1,
            locks[0].wf(),
            locks[0].value() is None,
            forall|i: int|
                0 <= i < results.len() ==> Self::forces(
                    #[trigger] locks[i],
                    locks[i + 1],
                    results[i],
                ),
        ensures
            call_ensures(locks[0].initializer()->Some_0, (), results[0]),
            forall|i: int| 0 <= i < results.len() ==> #[trigger] results[i] == results[0],
            forall|i: int|
                1 <= i < locks.len() ==> (#[trigger] locks[i]).initializer() is None
                    && locks[i].value() == Some(results[0]),
        decreases results.len(),
    {
        if results.len() > 1 {
            let ls = locks.drop_last();
            let rs = results.drop_last();
            assert forall|i: int| 0 <= i < rs.len() implies Self::forces(
                #[trigger] ls[i],
                ls[i + 1],
                rs[i],
            ) by {
                assert(Self::forces(locks[i], locks[i + 1], results[i]));
            }
            Self::law_force_computes_once(ls, rs);
            let k = results.len() - 1;
            assert(Self::forces(locks[k], locks[k + 1], results[k]));
            assert(ls[k] == locks[k]);
            assert(locks[k].value() == Some(results[0]));
            assert forall|i: int| 0 <= i < results.len() implies #[trigger] results[i]
                == results[0] by {
                if i < k {
                    assert(rs[i] == results[i]);
                }
            }
            assert forall|i: int| 1 <= i < locks.len() implies (
            #[trigger] locks[i]).initializer() is None && locks[i].value() == Some(results[0]) by {
                if i <= k {
                    assert(ls[i] == locks[i]);
                }
            }
        } else {
            assert(Self::forces(locks[0], locks[1], results[0]));
        }
    }
}

} // verus!
