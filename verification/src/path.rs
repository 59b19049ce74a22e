//! The name of a COPC file.

use crate::error::Error;
use crate::vlr::{range_spells, spells};
use vstd::prelude::*;
use vstd::string::StringSliceAdditionalSpecFns;

verus! {

/// The byte of a full stop.
pub const DOT: u8 = 46;

/// Where the last full stop stands among the first `n` bytes; -1 where
/// there is none.
pub open spec fn last_dot(name: Seq<u8>, n: int) -> int
    decreases n,
{
    if n <= 0 {
        -1
    } else if name[n - 1] == 46 {
        n - 1
    } else {
        last_dot(name, n - 1)
    }
}

/// The extension of a file name: what follows its last full stop. A name
/// without a full stop has none, nor has a name whose only full stop is its
/// first byte.
pub open spec fn spec_extension(name: Seq<u8>) -> Option<Seq<u8>> {
    if last_dot(name, name.len() as int) <= 0 {
        None
    } else {
        Some(name.subrange(last_dot(name, name.len() as int) + 1, name.len() as int))
    }
}

/// The stem of a file name: what stands before the last full stop of a name
/// that has an extension, and else the name.
pub open spec fn spec_stem(name: Seq<u8>) -> Seq<u8> {
    if last_dot(name, name.len() as int) <= 0 {
        name
    } else {
        name.subrange(0, last_dot(name, name.len() as int))
    }
}

/// The file name is that of a COPC file: its extension is `laz`, and the
/// extension of its stem is `copc`, in upper or lower case.
pub open spec fn spec_copc_name(name: Seq<u8>) -> bool {
    &&& spec_extension(name) is Some
    &&& spells(spec_extension(name)->0, "laz".spec_bytes())
    &&& spec_extension(spec_stem(name)) is Some
    &&& spells(spec_extension(spec_stem(name))->0, "copc".spec_bytes())
}

/// Where the last full stop stands among the first `n` bytes of the name.
fn find_last_dot(name: &[u8], n: usize) -> (r: Option<usize>)
    requires
        n <= name@.len(),
    ensures
        match r {
            Some(at) => at == last_dot(name@, n as int) && at < n,
            None => last_dot(name@, n as int) == -1,
        },
{
    let mut i: usize = n;
    while i > 0
        invariant
            i <= n <= name@.len(),
            last_dot(name@, i as int) == last_dot(name@, n as int),
        decreases i,
    {
        if name[i - 1] == DOT {
            return Some(i - 1);
        }
        i = i - 1;
    }
    None
}

/// Accepts the name of a file to write if it ends in `.copc.laz`, in upper
/// or lower case, behind a stem.
pub fn check_extension(file_name: &str) -> (r: Result<(), Error>)
    ensures
        spec_copc_name(file_name.spec_bytes()) ==> r is Ok,
        !spec_copc_name(file_name.spec_bytes()) ==> r is Err && r->Err_0
            == Error::WrongCopcExtension,
{
    let name = file_name.as_bytes();
    let n = name.len();
    let laz = match find_last_dot(name, n) {
        Some(at) => at,
        None => {
            return Err(Error::WrongCopcExtension);
        },
    };
    if laz == 0 || !range_spells(name, laz + 1, n, "laz") {
        return Err(Error::WrongCopcExtension);
    }
    proof {
        let stem = name@.subrange(0, laz as int);
        lemma_last_dot_prefix(name@, laz as int, laz as int);
        assert(stem.subrange(0, laz as int) =~= stem);
    }
    let copc = match find_last_dot(name, laz) {
        Some(at) => at,
        None => {
            return Err(Error::WrongCopcExtension);
        },
    };
    proof {
        let stem = name@.subrange(0, laz as int);
        assert(stem.subrange(copc + 1, laz as int) =~= name@.subrange(copc + 1, laz as int));
    }
    if copc == 0 || !range_spells(name, copc + 1, laz, "copc") {
        return Err(Error::WrongCopcExtension);
    }
    Ok(())
}

/// The last full stop of the start of a name is that of the name cut to
/// that start.
pub proof fn lemma_last_dot_prefix(name: Seq<u8>, cut: int, n: int)
    requires
        0 <= n <= cut <= name.len(),
    ensures
        last_dot(name.subrange(0, cut), n) == last_dot(name, n),
    decreases n,
{
    if n > 0 {
        lemma_last_dot_prefix(name, cut, n - 1);
    }
}

} // verus!
