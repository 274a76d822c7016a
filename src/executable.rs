use vstd::prelude::*;

use crate::system::find_executable;
use crate::text::{clone_from, concat3, texts};

verus! {

/// A command that is not a builtin: a program to be looked up on the path.
pub struct Executable {
    pub name: String,
    pub args: Vec<String>,
}

/// What running an external command comes to.
pub enum Launch {
    /// Start the program with these arguments.
    Spawn(String, Vec<String>),
    /// No program of that name is on the path: print this line.
    NotFound(String),
}

impl Executable {
    /// The launch for this command, given whether the path holds its program.
    pub fn launch(&self, found: bool) -> (r: Launch)
        ensures
            found ==> (r matches Launch::Spawn(n, a) && n@ == self.name@ && texts(a@) == texts(
                self.args@,
            )),
            !found ==> (r matches Launch::NotFound(m) && m@ == self.name@ + ": command not found"@),
    {
        proof {
            reveal_strlit("");
        }
        if found {
            let args = clone_from(&self.args, 0);
            assert(texts(self.args@).subrange(0, self.args.len() as int) =~= texts(self.args@));
            Launch::Spawn(self.name.clone(), args)
        } else {
            Launch::NotFound(concat3(self.name.as_str(), ": command not found", ""))
        }
    }

    /// Searches the path for the program and decides the launch.
    pub fn prepare(&self) -> (r: Launch)
        ensures
            exists|found: bool| #[trigger] launches(self, found, r),
    {
        let found = find_executable(self.name.as_str()).is_some();
        let r = self.launch(found);
        assert(launches(self, found, r));
        r
    }
}

/// `r` is the launch of `e` where `found` tells whether the path holds its program.
pub open spec fn launches(e: &Executable, found: bool, r: Launch) -> bool {
    if found {
        r matches Launch::Spawn(n, a) && n@ == e.name@ && texts(a@) == texts(e.args@)
    } else {
        r matches Launch::NotFound(m) && m@ == e.name@ + ": command not found"@
    }
}

} // verus!
