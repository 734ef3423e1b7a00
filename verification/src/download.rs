use vstd::prelude::*;
use crate::text::{ascii_to_string, chars_of_ascii, dec_digits, is_text, lemma_dec_digits_ascii,
    push_decimal};

verus! {

/// The bytes of the suggested download filename for a capture: `capture`, the
/// decimal id, then `.txt` for a text payload or `.bin` for a binary one.
/// The leading literal spells `capture`, byte 46 is `.`, and the suffix
/// literals spell `txt` and `bin`.
pub open spec fn filename_bytes(id: nat, text: bool) -> Seq<u8> {
    seq![99u8, 97u8, 112u8, 116u8, 117u8, 114u8, 101u8] + dec_digits(id) + seq![46u8] + (if text {
        seq![116u8, 120u8, 116u8]
    } else {
        seq![98u8, 105u8, 110u8]
    })
}

/// The filename under which the payload stored as capture `id` is offered for
/// download: `capture{id}.txt` when the payload is valid UTF-8 text, and
/// `capture{id}.bin` otherwise.
pub fn download_filename(id: u64, payload: &Vec<u8>) -> (r: String)
    ensures
        r@ == chars_of_ascii(filename_bytes(id as nat, vstd::utf8::valid_utf8(payload@))),
{
    let text = is_text(payload);
    let mut name: Vec<u8> = Vec::new();
    name.push(99);
    name.push(97);
    name.push(112);
    name.push(116);
    name.push(117);
    name.push(114);
    name.push(101);
    push_decimal(&mut name, id);
    name.push(46);
    if text {
        name.push(116);
        name.push(120);
        name.push(116);
    } else {
        name.push(98);
        name.push(105);
        name.push(110);
    }
    proof {
        lemma_dec_digits_ascii(id as nat);
        assert(name@ =~= filename_bytes(id as nat, text));
        let d = dec_digits(id as nat);
        assert forall|i: int| 0 <= i < name@.len() implies #[trigger] name@[i] < 128 by {
            if 7 <= i < 7 + d.len() {
                assert(name@[i] == d[i - 7]);
            }
        }
    }
    ascii_to_string(&name)
}

} // verus!
