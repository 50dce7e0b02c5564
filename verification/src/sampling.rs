//! What a sample keeps of each process and of the processor: the first
//! command-line words, an executable path of reasonable length, and the
//! processor's name.

use vstd::prelude::*;
use vstd::string::StringExecFns;

verus! {

/// How many command-line words a sample keeps.
pub const KEPT_COMMAND_WORDS: usize = 3;

/// The longest executable path a sample keeps, in bytes, plus one.
pub const EXE_PATH_LIMIT: usize = 200;

/// The first words of a command line, at most `KEPT_COMMAND_WORDS` of them.
pub fn command_head(cmd: &Vec<String>) -> (res: Vec<String>)
    ensures
        res.len() == if cmd.len() < KEPT_COMMAND_WORDS { cmd.len() as int } else { KEPT_COMMAND_WORDS as int },
        forall|i: int| 0 <= i < res.len() ==> (#[trigger] res@[i])@ == cmd@[i]@,
{
    let n: usize = if cmd.len() < KEPT_COMMAND_WORDS { cmd.len() } else { KEPT_COMMAND_WORDS };
    let mut res: Vec<String> = Vec::new();
    let mut i: usize = 0;
    while i < n
        invariant
            i <= n <= cmd.len(),
            res.len() == i,
            forall|j: int| 0 <= j < i ==> (#[trigger] res@[j])@ == cmd@[j]@,
        decreases n - i,
    {
        res.push(cmd[i].clone());
        i = i + 1;
    }
    res
}

/// The executable path, kept only when it is shorter than `EXE_PATH_LIMIT` bytes.
pub fn exe_if_short(path: &str) -> (res: Option<String>)
    ensures
        match res {
            Some(p) => p@ == path@ && path.len() < EXE_PATH_LIMIT,
            None => path.len() >= EXE_PATH_LIMIT,
        },
{
    if path.len() < EXE_PATH_LIMIT {
        Some(String::from_str(path))
    } else {
        None
    }
}

/// The processor's name: the brand of the first processor, or `Unknown CPU`.
pub fn cpu_name(first_brand: Option<&str>) -> (res: String)
    ensures
        res@ == match first_brand {
            Some(b) => b@,
            None => "Unknown CPU"@,
        },
{
    match first_brand {
        Some(b) => String::from_str(b),
        None => String::from_str("Unknown CPU"),
    }
}

} // verus!
