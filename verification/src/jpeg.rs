//! Telling a JPEG image by its first and last bytes.

use vstd::prelude::*;
use crate::text::{ends, starts};

verus! {

/// Whether bytes open and close as a JPEG image does.
pub open spec fn is_jpeg(body: Seq<u8>) -> bool {
    starts(body, seq![0xffu8, 0xd8u8]) && ends(body, seq![0xffu8, 0xd9u8])
}

/// Whether bytes open and close as a JPEG image does.
pub fn opens_and_closes(bytes: &[u8]) -> (r: bool)
    ensures
        r == is_jpeg(bytes@),
{
    let n: usize = bytes.len();
    if n < 2 {
        return false;
    }
    assert(bytes@.take(2) == seq![0xffu8, 0xd8u8] <==> bytes@[0] == 0xff && bytes@[1] == 0xd8) by {
        assert(bytes@.take(2) =~= seq![bytes@[0], bytes@[1]]);
        if bytes@.take(2) == seq![0xffu8, 0xd8u8] {
            assert(seq![0xffu8, 0xd8u8][0] == bytes@[0]);
            assert(seq![0xffu8, 0xd8u8][1] == bytes@[1]);
        }
    }
    assert(bytes@.skip(n - 2) == seq![0xffu8, 0xd9u8] <==> bytes@[n - 2] == 0xff && bytes@[n - 1]
        == 0xd9) by {
        assert(bytes@.skip(n - 2) =~= seq![bytes@[n - 2], bytes@[n - 1]]);
        if bytes@.skip(n - 2) == seq![0xffu8, 0xd9u8] {
            assert(seq![0xffu8, 0xd9u8][0] == bytes@[n - 2]);
            assert(seq![0xffu8, 0xd9u8][1] == bytes@[n - 1]);
        }
    }
    bytes[0] == 0xff && bytes[1] == 0xd8 && bytes[n - 2] == 0xff && bytes[n - 1] == 0xd9
}

/// A JPEG image starts with the bytes FF D8 and ends with FF D9.
pub proof fn law_a_jpeg_has_its_marks(body: Seq<u8>)
    ensures
        is_jpeg(body) <==> body.len() >= 2 && body[0] == 0xff && body[1] == 0xd8 && body[body.len()
            - 2] == 0xff && body[body.len() - 1] == 0xd9,
{
    let head = seq![0xffu8, 0xd8u8];
    let tail = seq![0xffu8, 0xd9u8];
    if body.len() >= 2 {
        assert(body.take(2)[0] == body[0] && body.take(2)[1] == body[1]);
        let end = body.skip(body.len() - 2);
        assert(end[0] == body[body.len() - 2] && end[1] == body[body.len() - 1]);
        assert(head[0] == 0xff && head[1] == 0xd8 && tail[0] == 0xff && tail[1] == 0xd9);
        if body[0] == 0xff && body[1] == 0xd8 {
            assert(body.take(2) =~= head);
        }
        if end[0] == 0xff && end[1] == 0xd9 {
            assert(end =~= tail);
        }
    }
}

} // verus!
