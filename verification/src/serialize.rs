use vstd::prelude::*;
use crate::text::push_all;

verus! {

/// The bytes of one `Name: Value` header line, terminated by CRLF.
/// Byte 58 is `:`, 32 is the space, 13 and 10 are CR and LF.
pub open spec fn header_line(name: Seq<u8>, value: Seq<u8>) -> Seq<u8> {
    name + seq![58u8, 32u8] + value + seq![13u8, 10u8]
}

/// The header block of a captured request: each header line, in the order the
/// headers were received.
pub open spec fn header_block(headers: Seq<(Seq<u8>, Seq<u8>)>) -> Seq<u8>
    decreases headers.len(),
{
    if headers.len() == 0 {
        Seq::empty()
    } else {
        header_block(headers.drop_last()) + header_line(headers.last().0, headers.last().1)
    }
}

/// The abstract contents of a list of header name/value pairs.
pub open spec fn headers_view(hs: Seq<(Vec<u8>, Vec<u8>)>) -> Seq<(Seq<u8>, Seq<u8>)> {
    Seq::new(hs.len(), |i: int| (hs[i].0@, hs[i].1@))
}

/// The serialized form of one captured request: `METHOD SP PATH CRLF`, the
/// header block, a blank CRLF, then the raw body bytes verbatim.
pub open spec fn request_bytes(
    method: Seq<u8>,
    path: Seq<u8>,
    headers: Seq<(Seq<u8>, Seq<u8>)>,
    body: Seq<u8>,
) -> Seq<u8> {
    method + seq![32u8] + path + seq![13u8, 10u8] + header_block(headers) + seq![13u8, 10u8] + body
}

/// Serializes one inbound request into the flat byte record that the store
/// keeps: request line, headers in received order, blank line, body.
pub fn serialize_request(
    method: &[u8],
    path: &[u8],
    headers: &Vec<(Vec<u8>, Vec<u8>)>,
    body: &[u8],
) -> (r: Vec<u8>)
    ensures
        r@ == request_bytes(method@, path@, headers_view(headers@), body@),
{
    let mut out: Vec<u8> = Vec::new();
    push_all(&mut out, method);
    out.push(32);
    push_all(&mut out, path);
    out.push(13);
    out.push(10);
    let ghost req_line = method@ + seq![32u8] + path@ + seq![13u8, 10u8];
    proof {
        assert(out@ =~= req_line + header_block(headers_view(headers@).take(0)));
    }
    let mut h: usize = 0;
    while h < headers.len()
        invariant
            h <= headers@.len(),
            out@ == req_line + header_block(headers_view(headers@).take(h as int)),
        decreases headers@.len() - h,
    {
        let pair = &headers[h];
        push_all(&mut out, pair.0.as_slice());
        out.push(58);
        out.push(32);
        push_all(&mut out, pair.1.as_slice());
        out.push(13);
        out.push(10);
        proof {
            let hv = headers_view(headers@);
            assert(hv.take(h as int + 1).drop_last() =~= hv.take(h as int));
            assert(hv.take(h as int + 1).last() == hv[h as int]);
            assert(out@ =~= req_line + header_block(hv.take(h as int + 1)));
        }
        h += 1;
    }
    out.push(13);
    out.push(10);
    push_all(&mut out, body);
    proof {
        assert(headers_view(headers@).take(headers@.len() as int) =~= headers_view(headers@));
        assert(out@ =~= request_bytes(method@, path@, headers_view(headers@), body@));
    }
    out
}

} // verus!
