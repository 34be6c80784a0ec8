//! The shop's own static files: style sheets, scripts and images.

use crate::text::{ends_with, join3, same, strip_prefix, write_hex};
use std::collections::hash_map::DefaultHasher;
use std::hash::Hasher;
use vstd::std_specs::hash::DefaultHasherAdditionalSpecFns;
use vstd::prelude::*;
use vstd::string::*;

verus! {

/// A request path without the prefix of the static files, however often it
/// occurs.
pub open spec fn without_prefixes(path: Seq<char>, prefix: Seq<char>) -> Seq<char>
    decreases path.len(),
{
    if prefix.len() > 0 && prefix.is_prefix_of(path) {
        without_prefixes(path.skip(prefix.len() as int), prefix)
    } else {
        path
    }
}

/// The name of the static file that a request path asks for.
pub fn asset_name(path: &str) -> (r: String)
    ensures
        r@ == without_prefixes(path@, "/static/"@),
{
    let mut rest = path.to_owned();
    proof {
        reveal_strlit("/static/");
    }
    loop
        invariant
            "/static/"@.len() > 0,
            without_prefixes(rest@, "/static/"@) == without_prefixes(path@, "/static/"@),
        decreases rest@.len(),
    {
        let shorter = match strip_prefix(&rest, "/static/") {
            Some(t) => t.to_owned(),
            None => return rest,
        };
        rest = shorter;
    }
}

/// The hash of some bytes: what a `DefaultHasher` gives after their number was
/// written to it, in eight bytes, and then the bytes.
pub open spec fn content_hash(bytes: Seq<u8>) -> u64 {
    DefaultHasher::spec_finish(
        seq![vstd::bytes::spec_u64_to_le_bytes(bytes.len() as u64), bytes],
    )
}

fn hash_of(bytes: &[u8]) -> (hash: u64)
    ensures
        hash == content_hash(bytes@),
{
    let mut hasher = DefaultHasher::new();
    let length = vstd::bytes::u64_to_le_bytes(bytes.len() as u64);
    hasher.write(&length);
    hasher.write(bytes);
    assert(hasher@ =~= seq![vstd::bytes::spec_u64_to_le_bytes(bytes@.len() as u64), bytes@]);
    hasher.finish()
}

/// The entity tag that a hash gives: its hexadecimal digits in quotation marks.
pub open spec fn tag_of(hash: u64) -> Seq<char> {
    "\""@ + crate::text::in_base(hash as nat, 16) + "\""@
}

/// The entity tag that a hash gives.
pub fn etag(hash: u64) -> (r: String)
    ensures
        r@ == tag_of(hash),
{
    let digits = write_hex(hash);
    join3("\"", &digits, "\"")
}

/// The entity tag of a file: it changes with the hash of the contents.
pub fn etag_for(bytes: &[u8]) -> (r: String)
    ensures
        r@ == tag_of(content_hash(bytes@)),
{
    etag(hash_of(bytes))
}

/// The media type that a file name stands for.
pub open spec fn mime_of(path: Seq<char>) -> Seq<char> {
    if ".css"@.is_suffix_of(path) {
        "text/css; charset=utf-8"@
    } else if ".js"@.is_suffix_of(path) {
        "text/javascript; charset=utf-8"@
    } else if ".svg"@.is_suffix_of(path) {
        "image/svg+xml"@
    } else {
        "application/octet-stream"@
    }
}

/// The media type that a file name stands for.
pub fn mime_for(path: &str) -> (r: &'static str)
    ensures
        r@ == mime_of(path@),
{
    if ends_with(path, ".css") {
        "text/css; charset=utf-8"
    } else if ends_with(path, ".js") {
        "text/javascript; charset=utf-8"
    } else if ends_with(path, ".svg") {
        "image/svg+xml"
    } else {
        "application/octet-stream"
    }
}

/// How a request for a static file is answered.
#[derive(Debug)]
pub enum AssetReply {
    NotFound,
    /// The browser has the file as it is.
    NotModified { etag: String },
    /// The browser gets the file, and asks again before it uses it next time.
    Found { mime: &'static str, etag: String },
}

/// Whether a request is answered as it should be, given the entity tag of the
/// file that it asks for, if there is one, and the tag that the browser has.
pub open spec fn is_reply(
    r: AssetReply,
    name: Seq<char>,
    etag: Option<String>,
    if_none_match: Option<String>,
) -> bool {
    match etag {
        None => r is NotFound,
        Some(tag) => if if_none_match matches Some(held) && held@ == tag@ {
            r == (AssetReply::NotModified { etag: tag })
        } else {
            r matches AssetReply::Found { mime, etag } && mime@ == mime_of(name) && etag == tag
        },
    }
}

/// A browser that has the tag of a file is not sent the file again. One that has
/// another tag, or none, is sent the file with its tag and its media type.
/// Without a file there is nothing to send.
pub proof fn lemma_files_are_sent_once(
    r: AssetReply,
    name: Seq<char>,
    etag: Option<String>,
    if_none_match: Option<String>,
)
    requires
        is_reply(r, name, etag, if_none_match),
    ensures
        r is NotFound <==> etag is None,
        r is NotModified <==> etag is Some && if_none_match is Some && if_none_match->0@
            == etag->0@,
        r matches AssetReply::NotModified { etag: tag } ==> tag@ == etag->0@,
        r matches AssetReply::Found { mime, etag: tag } ==> tag@ == etag->0@ && mime@ == mime_of(
            name,
        ),
{
}

/// How a request is answered, given the entity tag of the file that it asks
/// for, if there is one, and the tag that the browser has.
pub fn reply(name: &str, etag: Option<String>, if_none_match: Option<String>) -> (r: AssetReply)
    ensures
        is_reply(r, name@, etag, if_none_match),
        match etag {
            None => r is NotFound,
            Some(tag) => if if_none_match matches Some(held) && held@ == tag@ {
                r == (AssetReply::NotModified { etag: tag })
            } else {
                r matches AssetReply::Found { mime, etag } && mime@ == mime_of(name@) && etag == tag
            },
        },
{
    match etag {
        None => AssetReply::NotFound,
        Some(etag) => {
            if let Some(held) = if_none_match {
                if same(&held, &etag) {
                    return AssetReply::NotModified { etag };
                }
            }
            AssetReply::Found { mime: mime_for(name), etag }
        },
    }
}

/// A static file is asked for by its name behind the prefix, however often that
/// stands there.
pub proof fn lemma_prefix_is_dropped(prefix: Seq<char>, name: Seq<char>)
    ensures
        without_prefixes(prefix + name, prefix) == without_prefixes(name, prefix),
        !prefix.is_prefix_of(name) ==> without_prefixes(name, prefix) == name,
        prefix.len() > 0 ==> !prefix.is_prefix_of(without_prefixes(name, prefix)),
    decreases name.len(),
{
    let whole = prefix + name;
    assert(whole.subrange(0, prefix.len() as int) =~= prefix);
    if prefix.len() > 0 {
        assert(whole.skip(prefix.len() as int) =~= name);
        if prefix.is_prefix_of(name) {
            let rest = name.skip(prefix.len() as int);
            lemma_prefix_is_dropped(prefix, rest);
        }
    } else {
        assert(whole =~= name);
    }
}

/// Style sheets, scripts and vector images have their media types, by the
/// ending of their names, and any other file is just bytes.
pub proof fn lemma_media_types(stem: Seq<char>)
    ensures
        mime_of(stem + ".css"@) == "text/css; charset=utf-8"@,
        mime_of(stem + ".js"@) == "text/javascript; charset=utf-8"@,
        mime_of(stem + ".svg"@) == "image/svg+xml"@,
        !".css"@.is_suffix_of(stem) && !".js"@.is_suffix_of(stem) && !".svg"@.is_suffix_of(stem)
            ==> mime_of(stem) == "application/octet-stream"@,
{
    reveal_strlit(".css");
    reveal_strlit(".js");
    reveal_strlit(".svg");
    let css = stem + ".css"@;
    let js = stem + ".js"@;
    let svg = stem + ".svg"@;
    assert(css.subrange(css.len() - 4, css.len() as int) =~= ".css"@);
    assert(js.subrange(js.len() - 3, js.len() as int) =~= ".js"@);
    assert(svg.subrange(svg.len() - 4, svg.len() as int) =~= ".svg"@);
    assert(js.last() == 's' && js[js.len() - 2] == 'j');
    assert(svg.last() == 'g');
    if ".css"@.is_suffix_of(js) {
        assert(js.subrange(js.len() - 4, js.len() as int)[2] == js[js.len() - 2]);
    }
    if ".css"@.is_suffix_of(svg) {
        assert(svg.subrange(svg.len() - 4, svg.len() as int)[3] == svg.last());
    }
    if ".js"@.is_suffix_of(svg) {
        assert(svg.subrange(svg.len() - 3, svg.len() as int)[2] == svg.last());
    }
}

/// An entity tag stands in quotation marks, and different hashes have different
/// tags.
pub proof fn lemma_tags_follow_hashes(a: u64, b: u64)
    ensures
        tag_of(a).len() > 2,
        tag_of(a)[0] == '"',
        tag_of(a).last() == '"',
        a != b ==> tag_of(a) != tag_of(b),
{
    reveal_strlit("\"");
    let x = crate::text::in_base(a as nat, 16);
    let y = crate::text::in_base(b as nat, 16);
    assert(x.len() > 0);
    assert(tag_of(a).subrange(1, tag_of(a).len() - 1) =~= x);
    assert(tag_of(b).subrange(1, tag_of(b).len() - 1) =~= y);
    if x == y {
        crate::text::lemma_hex_differs(a as nat, b as nat);
    }
}

} // verus!
