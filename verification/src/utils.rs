use crate::errors::Error;
use crate::Args;
use vstd::prelude::*;

verus! {

/// The directory in which the Taskfile is looked for: the home directory
/// where the Taskfile of the home directory is asked for, else the current
/// directory. `home` is the home directory, if there is one to be found.
pub fn search_dir<P>(args: &Args, home: Option<P>, current: P) -> (dir: Result<P, Error>)
    ensures
        dir == if args.global {
            match home {
                Some(path) => Ok::<P, Error>(path),
                None => Err(Error::HomeDirUnavailable),
            }
        } else {
            Ok(current)
        },
{
    if args.global {
        match home {
            Some(path) => Ok(path),
            None => Err(Error::HomeDirUnavailable),
        }
    } else {
        Ok(current)
    }
}

/// Picks the Taskfile among the candidates. They come in order of
/// importance, each a path and whether a file exists there; the first that
/// exists is taken. Where none exists, there is no Taskfile.
pub fn get_filepath<P>(candidates: Vec<(P, bool)>) -> (path: Result<P, Error>)
    ensures
        match path {
            Ok(p) => exists|i: int|
                0 <= i < candidates@.len() && #[trigger] candidates@[i] == (p, true) && forall|
                    j: int,
                | 0 <= j < i ==> !(#[trigger] candidates@[j]).1,
            Err(e) => e == Error::NotFound && forall|i: int|
                0 <= i < candidates@.len() ==> !(#[trigger] candidates@[i]).1,
        },
{
    let mut rest = candidates;
    let mut i: usize = 0;
    while i < rest.len()
        invariant
            rest@ == candidates@,
            i <= rest.len(),
            forall|j: int| 0 <= j < i ==> !(#[trigger] candidates@[j]).1,
        decreases rest.len() - i,
    {
        if rest[i].1 {
            let found = rest.swap_remove(i);
            return Ok(found.0);
        }
        i += 1;
    }
    Err(Error::NotFound)
}

} // verus!
