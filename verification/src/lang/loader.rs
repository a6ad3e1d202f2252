//! The functions of a program, by name.

use crate::lang::ast::Func;
use crate::lang::interpreter::FuncLoader;
use vstd::prelude::*;
use vstd::string::StringExecFns;

verus! {

/// The functions of a program, by name: a later function takes the place of
/// an earlier one of the same name.
pub struct HashMapLoader {
    funcs: Vec<Func>,
}

/// The last of `funcs` that has the name `name`.
pub open spec fn func_of(funcs: Seq<Func>, name: Seq<char>) -> Option<Func>
    decreases funcs.len(),
{
    if funcs.len() == 0 {
        None
    } else if funcs.last().name@ == name {
        Some(funcs.last())
    } else {
        func_of(funcs.drop_last(), name)
    }
}

impl HashMapLoader {
    /// The functions, in the order in which they were given.
    pub closed spec fn funcs(&self) -> Seq<Func> {
        self.funcs@
    }

    pub fn new(funcs: Vec<Func>) -> (loader: HashMapLoader)
        ensures
            loader.funcs() == funcs@,
    {
        HashMapLoader { funcs }
    }
}

impl FuncLoader for HashMapLoader {
    open spec fn find(&self, name: Seq<char>) -> Option<Func> {
        func_of(self.funcs(), name)
    }

    fn load(&self, name: &str) -> (func: Option<&Func>) {
        let wanted = String::from_str(name);
        let mut left: usize = self.funcs.len();
        assert(self.funcs@.take(left as int) =~= self.funcs@);
        while left > 0
            invariant
                left <= self.funcs@.len(),
                wanted@ == name@,
                func_of(self.funcs@, name@) == func_of(self.funcs@.take(left as int), name@),
            decreases left,
        {
            left -= 1;
            assert(self.funcs@.take(left as int + 1).drop_last() =~= self.funcs@.take(left as int));
            if self.funcs[left].name == wanted {
                return Some(&self.funcs[left]);
            }
        }
        None
    }
}

} // verus!
