//! Consistent-overhead byte stuffing of bootloader packets.
//!
//! The data is cut at its zero bytes. Each piece is sent behind a code byte, one
//! more than the length of the piece, and a single zero ends the frame. Pieces of
//! 254 bytes and more are not split up: see [`runs_fit`] for the data that comes
//! back whole.

use vstd::prelude::*;

use crate::bytes::run_length;

verus! {

/// The code bytes and pieces of a frame, without the zero that ends it. A code
/// byte is the length of its piece plus one, modulo 256.
pub open spec fn cobs_pieces(data: Seq<u8>) -> Seq<u8>
    decreases data.len(),
    via cobs_pieces_decreases
{
    let run = crate::bytes::run_len(data);
    let head = seq![((run + 1) % 256) as u8] + data.take(run);
    if run < data.len() {
        head + cobs_pieces(data.skip(run + 1))
    } else {
        head
    }
}

#[via_fn]
proof fn cobs_pieces_decreases(data: Seq<u8>) {
    crate::bytes::lemma_run(data);
}

/// The frame of `data`.
pub open spec fn cobs_frame(data: Seq<u8>) -> Seq<u8> {
    cobs_pieces(data).push(0)
}

/// The data that a row of code bytes and pieces stands for: a zero is put back
/// between pieces, except behind a code byte of 255. A piece that is cut short is
/// taken as far as it goes, and a code byte of zero ends the data.
pub open spec fn cobs_unpieced(pieces: Seq<u8>) -> Seq<u8>
    decreases pieces.len(),
{
    if pieces.len() == 0 || pieces[0] == 0 {
        Seq::empty()
    } else {
        let code = pieces[0] as int;
        let end = if code < pieces.len() { code } else { pieces.len() as int };
        let rest = pieces.skip(end);
        let piece = pieces.subrange(1, end);
        (if code < 255 && rest.len() > 0 { piece.push(0) } else { piece }) + cobs_unpieced(rest)
    }
}

/// `raw` without the zero at its end, if there is one.
pub open spec fn without_end_marker(raw: Seq<u8>) -> Seq<u8> {
    if raw.len() > 0 && raw.last() == 0 {
        raw.drop_last()
    } else {
        raw
    }
}

/// The data of a frame.
pub open spec fn cobs_data(raw: Seq<u8>) -> Seq<u8> {
    cobs_unpieced(without_end_marker(raw))
}

/// Encodes `data` to a frame.
pub fn cobs_encode(data: &[u8]) -> (out: Vec<u8>)
    ensures
        out@ == cobs_frame(data@),
        out@.len() == data@.len() + 2,
{
    let mut out: Vec<u8> = Vec::new();
    let mut idx: usize = 0;
    assert(data@.skip(0) =~= data@);
    loop
        invariant_except_break
            idx <= data@.len(),
            out@ + cobs_pieces(data@.skip(idx as int)) == cobs_pieces(data@),
        ensures
            out@ == cobs_pieces(data@),
        decreases data@.len() - idx,
    {
        let ghost rest = data@.skip(idx as int);
        assert(data@.subrange(idx as int, data@.len() as int) =~= rest);
        let run: usize = run_length(&data[idx..data.len()]);
        proof {
            crate::bytes::lemma_run(rest);
        }
        let end: usize = idx + run;
        let code: u8 = ((run % 256 + 1) % 256) as u8;
        let ghost before = out@;
        out.push(code);
        out.extend_from_slice(&data[idx..end]);
        assert(out@ =~= before + (seq![((run + 1) % 256) as u8] + rest.take(run as int)));
        if end < data.len() {
            assert(rest.skip(run + 1) =~= data@.skip(end + 1));
            assert(before + cobs_pieces(rest) =~= out@ + cobs_pieces(data@.skip(end + 1)));
            idx = end + 1;
        } else {
            assert(out@ =~= before + cobs_pieces(rest));
            break;
        }
    }
    out.push(0x00);
    proof {
        lemma_pieces_len(data@);
    }
    out
}

proof fn lemma_pieces_len(data: Seq<u8>)
    ensures
        cobs_pieces(data).len() == data.len() + 1,
    decreases data.len(),
{
    crate::bytes::lemma_run(data);
    if crate::bytes::run_len(data) < data.len() {
        lemma_pieces_len(data.skip(crate::bytes::run_len(data) + 1));
    }
}

/// Decodes a frame, with or without the zero at its end.
pub fn cobs_decode(raw: &[u8]) -> (out: Vec<u8>)
    ensures
        out@ == cobs_data(raw@),
{
    let n: usize = if raw.len() > 0 && raw[raw.len() - 1] == 0 { raw.len() - 1 } else { raw.len() };
    let ghost pieces = without_end_marker(raw@);
    assert(pieces =~= raw@.take(n as int));
    let mut out: Vec<u8> = Vec::new();
    let mut idx: usize = 0;
    assert(pieces.skip(0) =~= pieces);
    while idx < n
        invariant
            idx <= n <= raw@.len(),
            pieces == raw@.take(n as int),
            out@ + cobs_unpieced(pieces.skip(idx as int)) == cobs_unpieced(pieces),
        ensures
            out@ == cobs_unpieced(pieces),
        decreases n - idx,
    {
        let ghost rest = pieces.skip(idx as int);
        let code: usize = raw[idx] as usize;
        assert(rest[0] == raw@[idx as int]);
        if code == 0 {
            break;
        }
        let end: usize = if n - idx < code { n } else { idx + code };
        let ghost before = out@;
        out.extend_from_slice(&raw[idx + 1..end]);
        assert(raw@.subrange(idx + 1, end as int) =~= rest.subrange(1, end - idx));
        assert(out@ =~= before + rest.subrange(1, end - idx));
        if code < 0xFF && end < n {
            out.push(0);
        }
        assert(rest.skip(end - idx) =~= pieces.skip(end as int));
        assert(out@ + cobs_unpieced(pieces.skip(end as int)) =~= before + cobs_unpieced(rest));
        idx = end;
    }
    out
}

/// `data[i..j]` is a piece: a longest row of nonzero bytes between zeros or ends,
/// which is empty between neighbouring zeros.
pub open spec fn is_piece(data: Seq<u8>, i: int, j: int) -> bool {
    &&& 0 <= i <= j <= data.len()
    &&& forall|k: int| i <= k < j ==> #[trigger] data[k] != 0
    &&& i == 0 || data[i - 1] == 0
    &&& j == data.len() || data[j] == 0
}

/// Every piece has at most 253 bytes; the last one may have 254.
pub open spec fn runs_fit(data: Seq<u8>) -> bool {
    forall|i: int, j: int|
        #[trigger] is_piece(data, i, j) ==> j - i <= 253 || (j == data.len() && j - i == 254)
}

/// The pieces behind the first one are the pieces of the data behind its zero.
proof fn lemma_later_piece(data: Seq<u8>, i: int, j: int)
    requires
        crate::bytes::run_len(data) < data.len(),
        is_piece(data.skip(crate::bytes::run_len(data) + 1), i, j),
    ensures
        is_piece(data, i + crate::bytes::run_len(data) + 1, j + crate::bytes::run_len(data) + 1),
{
    crate::bytes::lemma_run(data);
    let cut = crate::bytes::run_len(data) + 1;
    let rest = data.skip(cut);
    assert forall|k: int| i + cut <= k < j + cut implies #[trigger] data[k] != 0 by {
        assert(rest[k - cut] != 0);
    }
    if i > 0 {
        assert(rest[i - 1] == data[i + cut - 1]);
    }
}

/// Every piece of the data is its first piece or a piece behind it.
proof fn lemma_earlier_piece(data: Seq<u8>, i: int, j: int)
    requires
        is_piece(data, i, j),
    ensures
        i == 0 && j == crate::bytes::run_len(data) || i > crate::bytes::run_len(data) && is_piece(
            data.skip(crate::bytes::run_len(data) + 1),
            i - crate::bytes::run_len(data) - 1,
            j - crate::bytes::run_len(data) - 1,
        ),
{
    crate::bytes::lemma_run(data);
    let cut = crate::bytes::run_len(data) + 1;
    if i == 0 {
        crate::bytes::lemma_run_is(data, j);
    } else {
        if i < cut {
            assert(data[i - 1] != 0);
        }
        let rest = data.skip(cut);
        assert forall|k: int| i - cut <= k < j - cut implies #[trigger] rest[k] != 0 by {
            assert(data[k + cut] != 0);
        }
    }
}

/// The code bytes themselves carry no data.
proof fn lemma_unpieced_len(pieces: Seq<u8>)
    requires
        pieces.len() > 0,
    ensures
        cobs_unpieced(pieces).len() < pieces.len(),
    decreases pieces.len(),
{
    if pieces[0] != 0 {
        let code = pieces[0] as int;
        let end = if code < pieces.len() { code } else { pieces.len() as int };
        if end < pieces.len() {
            lemma_unpieced_len(pieces.skip(end));
        } else {
            assert(pieces.skip(end) =~= Seq::empty());
            assert(cobs_unpieced(Seq::empty()) =~= Seq::empty());
        }
    }
}

/// A frame gives its data back exactly where the pieces of the data fit their
/// code bytes.
pub proof fn law_frame_round_trip(data: Seq<u8>)
    ensures
        cobs_data(cobs_frame(data)) == data <==> runs_fit(data),
{
    assert(cobs_frame(data).drop_last() =~= cobs_pieces(data));
    lemma_pieces_round_trip(data);
}

proof fn lemma_pieces_round_trip(data: Seq<u8>)
    ensures
        cobs_unpieced(cobs_pieces(data)) == data <==> runs_fit(data),
    decreases data.len(), 1int,
{
    crate::bytes::lemma_run(data);
    lemma_pieces_len(data);
    let run = crate::bytes::run_len(data);
    let pieces = cobs_pieces(data);
    assert(is_piece(data, 0, run));
    if run <= 253 && run < data.len() {
        lemma_first_piece_fits(data);
    } else if run <= 254 && run == data.len() {
        assert(pieces[0] == run + 1);
        assert(pieces.skip(run + 1) =~= Seq::empty());
        assert(cobs_unpieced(Seq::empty()) =~= Seq::empty());
        assert(pieces.subrange(1, run + 1) =~= data);
        assert(data + Seq::<u8>::empty() =~= data);
        assert forall|i: int, j: int| #[trigger] is_piece(data, i, j) implies j - i <= 253 || (j
            == data.len() && j - i == 254) by {
            lemma_earlier_piece(data, i, j);
        }
    } else {
        assert(!runs_fit(data));
        lemma_long_piece_is_lost(data);
    }
}

proof fn lemma_first_piece_fits(data: Seq<u8>)
    requires
        crate::bytes::run_len(data) <= 253,
        crate::bytes::run_len(data) < data.len(),
    ensures
        cobs_unpieced(cobs_pieces(data)) == data <==> runs_fit(data),
    decreases data.len(), 0int,
{
    crate::bytes::lemma_run(data);
    let run = crate::bytes::run_len(data);
    let pieces = cobs_pieces(data);
    let rest = data.skip(run + 1);
    lemma_pieces_round_trip(rest);
    lemma_pieces_len(rest);
    assert(pieces[0] == run + 1);
    assert(pieces.skip(run + 1) =~= cobs_pieces(rest));
    assert(pieces.subrange(1, run + 1) =~= data.take(run));
    let out = cobs_unpieced(pieces);
    assert(out == data.take(run).push(0) + cobs_unpieced(cobs_pieces(rest)));
    if out == data {
        assert(out.skip(run + 1) =~= cobs_unpieced(cobs_pieces(rest)));
    }
    if cobs_unpieced(cobs_pieces(rest)) == rest {
        assert(out =~= data);
    }
    if runs_fit(rest) {
        assert forall|i: int, j: int| #[trigger] is_piece(data, i, j) implies j - i <= 253 || (j
            == data.len() && j - i == 254) by {
            lemma_earlier_piece(data, i, j);
        }
    }
    if runs_fit(data) {
        assert forall|i: int, j: int| #[trigger] is_piece(rest, i, j) implies j - i <= 253 || (j
            == rest.len() && j - i == 254) by {
            lemma_later_piece(data, i, j);
        }
    }
}

/// Where the first piece is too long for its code byte, the data does not come back.
proof fn lemma_long_piece_is_lost(data: Seq<u8>)
    requires
        crate::bytes::run_len(data) >= 254,
        crate::bytes::run_len(data) > 254 || crate::bytes::run_len(data) < data.len(),
    ensures
        cobs_unpieced(cobs_pieces(data)) != data,
{
    crate::bytes::lemma_run(data);
    lemma_pieces_len(data);
    let run = crate::bytes::run_len(data);
    let pieces = cobs_pieces(data);
    let code = (run + 1) % 256;
    let out = cobs_unpieced(pieces);
    assert(pieces[0] == code);
    if code == 0 {
        assert(out.len() == 0);
    } else if code < 255 {
        assert(pieces.skip(code).len() > 0);
        assert(out[code - 1] == 0);
        assert(data[code - 1] != 0);
    } else {
        lemma_unpieced_len(pieces.skip(code));
        assert(out.len() < data.len());
    }
}

/// A frame holds a zero at its end and nowhere else, as long as no piece is so
/// long that its code byte wraps to zero.
pub proof fn law_zero_ends_frame(data: Seq<u8>, k: int)
    requires
        forall|i: int, j: int| #[trigger] is_piece(data, i, j) ==> (j - i + 1) % 256 != 0,
        0 <= k < cobs_frame(data).len(),
    ensures
        cobs_frame(data)[k] == 0 <==> k == cobs_frame(data).len() - 1,
{
    lemma_pieces_nonzero(data);
}

proof fn lemma_pieces_nonzero(data: Seq<u8>)
    requires
        forall|i: int, j: int| #[trigger] is_piece(data, i, j) ==> (j - i + 1) % 256 != 0,
    ensures
        forall|k: int| 0 <= k < cobs_pieces(data).len() ==> #[trigger] cobs_pieces(data)[k] != 0,
    decreases data.len(),
{
    crate::bytes::lemma_run(data);
    let run = crate::bytes::run_len(data);
    let head = seq![((run + 1) % 256) as u8] + data.take(run);
    assert(is_piece(data, 0, run));
    assert(head[0] != 0);
    assert forall|k: int| 0 <= k < head.len() implies #[trigger] head[k] != 0 by {
        if k > 0 {
            assert(head[k] == data[k - 1]);
        }
    }
    if run < data.len() {
        let rest = data.skip(run + 1);
        assert forall|i: int, j: int| #[trigger] is_piece(rest, i, j) implies (j - i + 1) % 256
            != 0 by {
            lemma_later_piece(data, i, j);
        }
        lemma_pieces_nonzero(rest);
        assert forall|k: int| 0 <= k < cobs_pieces(data).len() implies #[trigger] cobs_pieces(
            data,
        )[k] != 0 by {
            if k < head.len() {
                assert(cobs_pieces(data)[k] == head[k]);
            } else {
                assert(cobs_pieces(data)[k] == cobs_pieces(rest)[k - head.len()]);
            }
        }
    } else {
        assert(cobs_pieces(data) == head);
    }
}

/// Up to 254 bytes always fit.
pub proof fn law_short_data_fits(data: Seq<u8>)
    requires
        data.len() <= 254,
    ensures
        runs_fit(data),
        forall|i: int, j: int| #[trigger] is_piece(data, i, j) ==> (j - i + 1) % 256 != 0,
{
}

/// A frame keeps its data in place, one byte further on. Where a zero stands in the
/// data, and in front of all of it, the frame says how far it is to the next zero or
/// to the end.
pub proof fn law_frame_layout(data: Seq<u8>, i: int, j: int)
    requires
        0 <= i <= j <= data.len(),
        forall|k: int| i <= k < j ==> #[trigger] data[k] != 0,
        i == 0 || data[i - 1] == 0,
        j == data.len() || data[j] == 0,
    ensures
        cobs_frame(data).len() == data.len() + 2,
        cobs_frame(data).last() == 0,
        cobs_frame(data)[i] == (j - i + 1) % 256,
        forall|k: int| i <= k < j ==> #[trigger] cobs_frame(data)[k + 1] == data[k],
{
    lemma_pieces_len(data);
    lemma_layout(data, i, j);
    assert forall|k: int| i <= k < j implies #[trigger] cobs_frame(data)[k + 1] == data[k] by {
        assert(cobs_pieces(data)[k + 1] == data[k]);
    }
}

proof fn lemma_layout(data: Seq<u8>, i: int, j: int)
    requires
        is_piece(data, i, j),
    ensures
        cobs_pieces(data)[i] == (j - i + 1) % 256,
        forall|k: int| i <= k < j ==> #[trigger] cobs_pieces(data)[k + 1] == data[k],
    decreases data.len(),
{
    crate::bytes::lemma_run(data);
    lemma_pieces_len(data);
    let run = crate::bytes::run_len(data);
    let cut = run + 1;
    let head = seq![((run + 1) % 256) as u8] + data.take(run);
    lemma_earlier_piece(data, i, j);
    if i > 0 {
        let rest = data.skip(cut);
        lemma_pieces_len(rest);
        lemma_layout(rest, i - cut, j - cut);
        assert(cobs_pieces(data) == head + cobs_pieces(rest));
        assert(head.len() == cut);
        assert forall|k: int| i <= k < j implies #[trigger] cobs_pieces(data)[k + 1] == data[k] by {
            assert(cobs_pieces(rest)[(k - cut) + 1] == rest[k - cut]);
        }
    } else {
        assert forall|k: int| 0 <= k < run implies #[trigger] cobs_pieces(data)[k + 1]
            == data[k] by {
            assert(head[k + 1] == data[k]);
        }
    }
}

/// Decoding goes from code byte to code byte: a code byte takes as many bytes as it
/// says, itself counted, or as many as there are. A zero is put back where more
/// follows, unless the code byte is 255, and a code byte of zero ends the data. Of
/// the zeros at the end of a frame, only the last one is left out.
pub proof fn law_decoding_goes_by_code_bytes(code: u8, rest: Seq<u8>)
    ensures
        cobs_unpieced(Seq::empty()) == Seq::<u8>::empty(),
        cobs_unpieced(seq![code] + rest) == (if code == 0 {
            Seq::empty()
        } else if code - 1 >= rest.len() {
            rest
        } else if code == 255 {
            rest.take(254) + cobs_unpieced(rest.skip(254))
        } else {
            rest.take(code - 1).push(0) + cobs_unpieced(rest.skip(code - 1))
        }),
        cobs_data(rest.push(0)) == cobs_unpieced(rest),
        rest.len() == 0 || rest.last() != 0 ==> cobs_data(rest) == cobs_unpieced(rest),
{
    let pieces = seq![code] + rest;
    assert(rest.push(0).drop_last() =~= rest);
    if code != 0 {
        let n = if code < pieces.len() { code as int } else { pieces.len() as int };
        assert(pieces.subrange(1, n) =~= rest.take(n - 1));
        assert(pieces.skip(n) =~= rest.skip(n - 1));
        if n == pieces.len() {
            assert(rest.take(n - 1) =~= rest);
            assert(pieces.skip(n) =~= Seq::empty());
            assert(cobs_unpieced(Seq::empty()) =~= Seq::empty());
            assert(rest + Seq::<u8>::empty() =~= rest);
        }
    }
}

} // verus!
