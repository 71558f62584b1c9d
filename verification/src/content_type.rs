//! The content-type rewrite between Connect-RPC (`application/proto`) and
//! gRPC (`application/grpc`) that the node's gateway applies to requests
//! and responses.
use vstd::prelude::*;
use vstd::utf8::encode_utf8;

verus! {

/// Whether `needle` occurs in `hay` at position `i`.
pub open spec fn occurs_at(hay: Seq<u8>, needle: Seq<u8>, i: int) -> bool {
    0 <= i && i + needle.len() <= hay.len() && hay.subrange(i, i + needle.len()) == needle
}

/// Whether `needle` occurs somewhere in `hay`.
pub open spec fn occurs_in(hay: Seq<u8>, needle: Seq<u8>) -> bool {
    exists|i: int| occurs_at(hay, needle, i)
}

fn matches_at(hay: &[u8], needle: &[u8], i: usize) -> (r: bool)
    requires
        i + needle@.len() <= hay@.len(),
    ensures
        r == occurs_at(hay@, needle@, i as int),
{
    let hl = hay.len();
    let mut k: usize = 0;
    while k < needle.len()
        invariant
            k <= needle@.len(),
            hl == hay@.len(),
            i + needle@.len() <= hay@.len(),
            forall|j: int| 0 <= j < k ==> hay@[i + j] == needle@[j],
        decreases needle@.len() - k,
    {
        if hay[i + k] != needle[k] {
            proof {
                assert(hay@.subrange(i as int, i + needle@.len())[k as int] != needle@[k as int]);
            }
            return false;
        }
        k += 1;
    }
    proof { assert(hay@.subrange(i as int, i + needle@.len()) =~= needle@); }
    true
}

/// Whether the text `hay` contains the text `needle`.
pub fn contains_text(hay: &str, needle: &str) -> (r: bool)
    ensures
        r == occurs_in(encode_utf8(hay@), encode_utf8(needle@)),
{
    let h = hay.as_bytes();
    let n = needle.as_bytes();
    if n.len() == 0 {
        proof { assert(h@.subrange(0, 0) =~= n@); assert(occurs_at(h@, n@, 0)); }
        return true;
    }
    if n.len() > h.len() {
        proof {
            assert forall|i: int| !occurs_at(h@, n@, i) by {}
        }
        return false;
    }
    let hl = h.len();
    let mut i: usize = 0;
    while i <= h.len() - n.len()
        invariant
            h@ == encode_utf8(hay@),
            n@ == encode_utf8(needle@),
            hl == h@.len(),
            n@.len() > 0,
            n@.len() <= h@.len(),
            i <= h@.len() - n@.len() + 1,
            forall|j: int| 0 <= j < i ==> !occurs_at(h@, n@, j),
        decreases h@.len() - n@.len() + 1 - i,
    {
        if matches_at(h, n, i) {
            proof { assert(occurs_at(h@, n@, i as int)); }
            return true;
        }
        i += 1;
    }
    proof {
        assert forall|j: int| !occurs_at(h@, n@, j) by {
            if 0 <= j && j < i {
            }
        }
    }
    false
}

/// The content type to send on: `to_type` when the current one names
/// `from_type`, otherwise none (the header stays as it is).
pub fn convert_content_type(content_type: &str, from_type: &str, to_type: &str) -> (r: Option<String>)
    ensures
        occurs_in(encode_utf8(content_type@), encode_utf8(from_type@)) ==> (r matches Some(t) && t@ == to_type@),
        !occurs_in(encode_utf8(content_type@), encode_utf8(from_type@)) ==> r is None,
{
    if contains_text(content_type, from_type) {
        Some(to_type.to_owned())
    } else {
        None
    }
}

/// A request's content type, Connect-RPC turned into gRPC.
pub fn convert_connect_to_grpc(content_type: &str) -> (r: Option<String>)
    ensures
        occurs_in(encode_utf8(content_type@), encode_utf8("application/proto"@)) ==> (r matches Some(t) && t@ == "application/grpc"@),
        !occurs_in(encode_utf8(content_type@), encode_utf8("application/proto"@)) ==> r is None,
{
    convert_content_type(content_type, "application/proto", "application/grpc")
}

/// A response's content type, gRPC turned into Connect-RPC.
pub fn convert_grpc_to_connect(content_type: &str) -> (r: Option<String>)
    ensures
        occurs_in(encode_utf8(content_type@), encode_utf8("application/grpc"@)) ==> (r matches Some(t) && t@ == "application/proto"@),
        !occurs_in(encode_utf8(content_type@), encode_utf8("application/grpc"@)) ==> r is None,
{
    convert_content_type(content_type, "application/grpc", "application/proto")
}

} // verus!
