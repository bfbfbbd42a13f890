//! How the proxy is started.

use crate::codec;
use crate::text;
use vstd::prelude::*;
use vstd::slice::*;
use vstd::string::*;

verus! {

broadcast use text::lemma_texts_push;

/// What the proxy is started with.
#[derive(Debug)]
pub struct ProxyArguments {
    pub workdir: String,
    pub program: String,
    pub arguments: Vec<String>,
}

/// What the proxy is started with: a directory to work in, the program of the language server, and
/// arguments for that.
pub fn parse_proxy_arguments(arguments: &Vec<String>) -> (r: Option<ProxyArguments>)
    ensures
        (match r {
            Some(parsed) => arguments@.len() >= 2 && parsed.workdir@ == arguments@[0]@
                && parsed.program@ == arguments@[1]@ && text::texts(parsed.arguments@)
                == text::texts(arguments@).skip(2),
            None => arguments@.len() < 2,
        }),
{
    if arguments.len() < 2 {
        return None;
    }
    let ghost all = text::texts(arguments@);
    let mut rest: Vec<String> = Vec::new();
    let mut i: usize = 2;
    assert(text::texts(rest@) =~= all.subrange(2, 2));
    while i < arguments.len()
        invariant
            2 <= i <= arguments@.len(),
            all == text::texts(arguments@),
            text::texts(rest@) == all.subrange(2, i as int),
        decreases arguments@.len() - i,
    {
        rest.push(arguments[i].clone());
        i += 1;
        assert(all.subrange(2, i as int) =~= all.subrange(2, i - 1).push(all[i - 1]));
    }
    assert(all.subrange(2, i as int) =~= all.skip(2));
    Some(
        ProxyArguments {
            workdir: arguments[0].clone(),
            program: arguments[1].clone(),
            arguments: rest,
        },
    )
}

/// `path` without the slashes at its end.
pub open spec fn without_final_slashes(path: Seq<char>) -> Seq<char>
    decreases path.len(),
{
    if path.len() > 0 && path.last() == '/' {
        without_final_slashes(path.drop_last())
    } else {
        path
    }
}

/// The name by which the proxy for the directory `current` is found.
pub open spec fn proxy_name(current: Seq<char>) -> Seq<char> {
    codec::lower_hex(vstd::utf8::encode_utf8(without_final_slashes(current)))
}

/// The name by which the proxy for the directory `current` is found.
pub fn proxy_id(current: &str) -> (r: String)
    ensures
        r@ == proxy_name(current@),
{
    let chars = text::chars_of(current);
    let mut end: usize = chars.len();
    assert(chars@.take(end as int) =~= chars@);
    while end > 0 && chars[end - 1] == '/'
        invariant
            end <= chars@.len(),
            without_final_slashes(chars@) == without_final_slashes(chars@.take(end as int)),
        decreases end,
    {
        let ghost part = chars@.take(end as int);
        assert(part.last() == chars@[end - 1]);
        end -= 1;
        assert(part.drop_last() =~= chars@.take(end as int));
    }
    let kept = slice_subrange(&chars, 0, end);
    assert(kept@ =~= chars@.take(end as int));
    codec::hex_encode(text::string_of(kept).as_str())
}

/// Two directories have the same name only where they are the same but for slashes at their ends.
pub proof fn lemma_proxy_names_differ(a: Seq<char>, b: Seq<char>)
    requires
        proxy_name(a) == proxy_name(b),
    ensures
        without_final_slashes(a) == without_final_slashes(b),
{
    let left = without_final_slashes(a);
    let right = without_final_slashes(b);
    codec::lemma_lower_hex_injective(
        vstd::utf8::encode_utf8(left),
        vstd::utf8::encode_utf8(right),
    );
    vstd::utf8::encode_utf8_decode_utf8(left);
    vstd::utf8::encode_utf8_decode_utf8(right);
}

/// How the ids of the proxy's own requests begin.
pub fn owned_id_prefix(proxy_id: &str) -> (r: String)
    ensures
        r@ == proxy_id@ + "-proxy-"@,
{
    let mut r = proxy_id.to_owned();
    r.append("-proxy-");
    r
}

/// Whether the program is a batch file, which Windows starts through its shell.
pub fn is_batch_file(program: &str) -> (r: bool)
    ensures
        r == (text::ends_with(program@, ".bat"@) || text::ends_with(program@, ".cmd"@)),
{
    let chars = text::chars_of(program);
    let bat = text::chars_of(".bat");
    let shell = text::chars_of(".cmd");
    text::has_suffix(&chars, &bat) || text::has_suffix(&chars, &shell)
}

/// A directory has the name of the proxy for it by which it is found with slashes at its end as without
/// them, and nothing else is dropped.
pub proof fn lemma_final_slashes(path: Seq<char>)
    ensures
        proxy_name(path.push('/')) == proxy_name(path),
        path.len() == 0 || path.last() != '/' ==> proxy_name(path) == codec::lower_hex(
            vstd::utf8::encode_utf8(path),
        ),
{
    assert(path.push('/').drop_last() =~= path);
}

} // verus!
