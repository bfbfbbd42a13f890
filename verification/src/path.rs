//! File system paths with slashes as separators.

use crate::text;
use vstd::prelude::*;
use vstd::string::*;

verus! {

/// The path `name` below `base`; `name` alone where it begins at the root.
pub open spec fn joined(base: Seq<char>, name: Seq<char>) -> Seq<char> {
    if text::starts_with(name, "/"@) {
        name
    } else if base.len() == 0 || base.last() == '/' {
        base + name
    } else {
        base + "/"@ + name
    }
}

/// The path `name` below `base`; `name` alone where it begins at the root.
pub fn join_path(base: &str, name: &str) -> (r: String)
    ensures
        r@ == joined(base@, name@),
{
    let base_chars = text::chars_of(base);
    let name_chars = text::chars_of(name);
    let root = text::chars_of("/");
    let mut r = String::new();
    if text::has_prefix(&name_chars, &root) {
        r.append(name);
        return r;
    }
    r.append(base);
    if base_chars.len() > 0 && base_chars[base_chars.len() - 1] != '/' {
        r.append("/");
    }
    r.append(name);
    r
}

/// A path below another has that before it, and exactly one slash between the two, wherever it came
/// from; a path from the root is below none.
pub proof fn lemma_joined(base: Seq<char>, name: Seq<char>)
    ensures
        name.len() > 0 && name[0] == '/' ==> joined(base, name) == name,
        !(name.len() > 0 && name[0] == '/') && base.len() > 0 && base.last() != '/' ==> joined(
            base,
            name,
        ) == base + seq!['/'] + name,
        !(name.len() > 0 && name[0] == '/') && base.len() > 0 && base.last() == '/' ==> joined(
            base,
            name,
        ) == base + name,
        !(name.len() > 0 && name[0] == '/') && base.len() == 0 ==> joined(base, name) == name,
{
    reveal_strlit("/");
    assert("/"@ =~= seq!['/']);
    if name.len() > 0 && name[0] == '/' {
        assert(name.subrange(0, 1) =~= "/"@);
    }
    if text::starts_with(name, "/"@) {
        assert(name.subrange(0, 1)[0] == '/');
    }
    assert(base.len() == 0 ==> base + name =~= name);
}

/// It does not matter in which order the parts of a path are put together.
pub proof fn lemma_joined_in_any_order(base: Seq<char>, middle: Seq<char>, name: Seq<char>)
    requires
        middle.len() > 0,
    ensures
        joined(joined(base, middle), name) == joined(base, joined(middle, name)),
{
    lemma_joined(base, middle);
    lemma_joined(middle, name);
    lemma_joined(joined(base, middle), name);
    lemma_joined(base, joined(middle, name));
    let one = joined(joined(base, middle), name);
    let other = joined(base, joined(middle, name));
    assert(joined(base, middle).last() == middle.last());
    assert(one =~= other);
}

} // verus!
