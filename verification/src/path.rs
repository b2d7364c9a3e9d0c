//! File names and their extensions.

use crate::text::chars_of;
use vstd::prelude::*;
use vstd::string::StrSliceExecFns;

verus! {

/// The place of the last dot before place `hi` of `name`, or `-1` where
/// there is none.
pub open spec fn last_dot(name: Seq<char>, hi: int) -> int
    decreases hi,
{
    if hi <= 0 || hi > name.len() {
        -1
    } else if name[hi - 1] == '.' {
        hi - 1
    } else {
        last_dot(name, hi - 1)
    }
}

/// The extension of the file name `name`: what follows its last dot. A name
/// without a dot has none, nor has a name whose only dot is its first
/// character, nor has the name `..`.
pub open spec fn extension_of(name: Seq<char>) -> Option<Seq<char>> {
    let dot = last_dot(name, name.len() as int);
    if dot <= 0 || name == seq!['.', '.'] {
        None
    } else {
        Some(name.skip(dot + 1))
    }
}

/// What `last_dot` returns, said without recursion.
pub proof fn lemma_last_dot(name: Seq<char>, hi: int)
    requires
        0 <= hi <= name.len(),
    ensures
        -1 <= last_dot(name, hi) < hi,
        last_dot(name, hi) >= 0 ==> name[last_dot(name, hi)] == '.',
        forall|k: int| last_dot(name, hi) < k < hi ==> #[trigger] name[k] != '.',
    decreases hi,
{
    if hi > 0 && name[hi - 1] != '.' {
        lemma_last_dot(name, hi - 1);
    }
}

/// An extension holds no dot, and the name ends with a dot and the
/// extension behind it; a name that has an extension holds something before
/// that dot.
pub proof fn lemma_extension(name: Seq<char>)
    requires
        extension_of(name) is Some,
    ensures
        ({
            let extension = extension_of(name)->Some_0;
            let dot = name.len() - extension.len() - 1;
            &&& dot > 0
            &&& name[dot] == '.'
            &&& name.skip(dot + 1) == extension
            &&& forall|k: int| 0 <= k < extension.len() ==> #[trigger] extension[k] != '.'
        }),
{
    lemma_last_dot(name, name.len() as int);
    let dot = last_dot(name, name.len() as int);
    let extension = name.skip(dot + 1);
    assert forall|k: int| 0 <= k < extension.len() implies #[trigger] extension[k] != '.' by {
        assert(extension[k] == name[dot + 1 + k]);
    }
}

/// The extension of a file name, without its dot. The name is that of the
/// file alone, with no directory before it.
pub fn get_extension(name: &str) -> (extension: Option<&str>)
    ensures
        match extension {
            Some(e) => extension_of(name@) == Some(e@),
            None => extension_of(name@) is None,
        },
{
    let chars = chars_of(name);
    let n = chars.len();
    let mut hi: usize = n;
    while hi > 0 && chars[hi - 1] != '.'
        invariant
            hi <= n,
            n == chars.len(),
            last_dot(chars@, n as int) == last_dot(chars@, hi as int),
        decreases hi,
    {
        hi -= 1;
    }
    if hi <= 1 {
        return None;
    }
    if n == 2 && chars[0] == '.' {
        assert(chars@ =~= seq!['.', '.']);
        return None;
    }
    assert(chars@ != seq!['.', '.']) by {
        if chars@ == seq!['.', '.'] {
            assert(chars@.len() == 2);
            assert(chars@[0] == seq!['.', '.'][0]);
        }
    }
    Some(name.substring_char(hi, n))
}

} // verus!
