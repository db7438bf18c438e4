//! The wire protocol, byte by byte.

use vstd::prelude::*;
use vstd::utf8::{decode_utf8, encode_utf8, valid_utf8};

use crate::be::{be, from_be, lemma_be_len, lemma_be_round_trip, lemma_spans};
use crate::proto::{
    after_frame, count_bytes, file_bytes, file_encoder, file_parser, frame_body, frame_bytes,
    has_frame, items_bytes, link_bytes, link_encoder, link_parser, parse_items, parse_str,
    parse_u32, parse_u64, parse_vec, request_bytes, request_of, response_bytes, response_of,
    str_bytes, str_encoder, str_parser, vec_bytes, FileModel, LinkModel, Parser, RequestModel,
    ResponseModel,
};
use crate::text::repaired_utf8;

verus! {

/// Four bytes as a number, most significant first.
pub open spec fn number(b: Seq<u8>) -> int {
    b[0] * 16777216 + b[1] * 65536 + b[2] * 256 + b[3]
}

pub(crate) proof fn lemma_four_bytes(b: Seq<u8>)
    requires
        b.len() == 4,
    ensures
        from_be(b) == number(b),
{
    reveal_with_fuel(from_be, 5);
}

/// Integers are written most significant byte first: a further byte at the end multiplies by 256
/// and adds.
pub proof fn law_integers_are_big_endian(v: nat, width: nat, s: Seq<u8>, b: u8)
    ensures
        be(v, 0).len() == 0,
        be(v * 256 + b as nat, width + 1) == be(v, width).push(b),
        from_be(Seq::empty()) == 0,
        from_be(s.push(b)) == from_be(s) * 256 + b,
{
    assert((v * 256 + b as nat) / 256 == v);
    assert((v * 256 + b as nat) % 256 == b);
    assert(s.push(b).drop_last() =~= s);
}

/// A frame is four bytes with the body's length, most significant first, and the body.
pub proof fn law_frame_layout(body: Seq<u8>)
    ensures
        frame_bytes(body).len() == 4 + body.len(),
        frame_bytes(body).skip(4) == body,
        body.len() < 4294967296 ==> number(frame_bytes(body)) == body.len(),
{
    lemma_be_len(body.len() % 0x1_0000_0000, 4);
    lemma_spans();
    assert(frame_bytes(body).skip(4) =~= body);
    if body.len() < 4294967296 {
        lemma_be_round_trip(body.len(), 4);
        lemma_four_bytes(count_bytes(body.len()));
    }
}

/// Input holds a frame where it has the four bytes of the header and as many more as they say.
/// The body is what follows the header; the rest is left.
pub proof fn law_reading_a_frame(input: Seq<u8>)
    ensures
        has_frame(input) <==> input.len() >= 4 && input.len() >= 4 + number(input),
        has_frame(input) ==> frame_body(input) == input.subrange(4, 4 + number(input)),
        has_frame(input) ==> after_frame(input) == input.skip(4 + number(input)),
{
    if input.len() >= 4 {
        lemma_four_bytes(input.subrange(0, 4));
        if has_frame(input) {
            assert(after_frame(input) =~= input.skip(4 + number(input)));
        }
    }
}

/// A text is four bytes with the length of its UTF-8 form, and that form.
pub proof fn law_text_layout(s: Seq<char>)
    ensures
        str_bytes(s).len() == 4 + encode_utf8(s).len(),
        str_bytes(s).skip(4) == encode_utf8(s),
        encode_utf8(s).len() < 4294967296 ==> number(str_bytes(s)) == encode_utf8(s).len(),
{
    let n = encode_utf8(s).len();
    lemma_be_len(n % 0x1_0000_0000, 4);
    lemma_spans();
    assert(str_bytes(s).skip(4) =~= encode_utf8(s));
    if n < 4294967296 {
        lemma_be_round_trip(n, 4);
        lemma_four_bytes(count_bytes(n));
    }
}

/// A list is four bytes with the number of its entries, and the entries one behind the other.
pub proof fn law_list_layout<T>(item: spec_fn(T) -> Seq<u8>, v: Seq<T>, x: T)
    ensures
        vec_bytes(item, v).len() >= 4,
        v.len() < 4294967296 ==> number(vec_bytes(item, v)) == v.len(),
        v.len() == 0 ==> vec_bytes(item, v).len() == 4,
        vec_bytes(item, v.push(x)).skip(4) == vec_bytes(item, v).skip(4) + item(x),
{
    lemma_be_len(v.len() % 0x1_0000_0000, 4);
    lemma_be_len(v.push(x).len() % 0x1_0000_0000, 4);
    lemma_spans();
    assert(v.push(x).drop_last() =~= v);
    assert(vec_bytes(item, v).skip(4) =~= items_bytes(item, v));
    assert(vec_bytes(item, v.push(x)).skip(4) =~= items_bytes(item, v.push(x)));
    if v.len() < 4294967296 {
        lemma_be_round_trip(v.len(), 4);
        lemma_four_bytes(count_bytes(v.len()));
    }
}

/// A file is its path, eight bytes with its size and four with its modification second; a symlink
/// is its path and its target. The entries of the lists of a plan are written so.
pub proof fn law_entry_layout(f: FileModel, l: LinkModel, s: Seq<char>)
    ensures
        ({
            let n = str_bytes(f.rel).len() as int;
            &&& file_bytes(f).len() == n + 12
            &&& file_bytes(f).take(n) == str_bytes(f.rel)
            &&& from_be(file_bytes(f).subrange(n, n + 8)) == f.size
            &&& from_be(file_bytes(f).subrange(n + 8, n + 12)) == f.mtime
        }),
        link_bytes(l) == str_bytes(l.rel) + str_bytes(l.target),
        str_encoder()(s) == str_bytes(s),
        file_encoder()(f) == file_bytes(f),
        link_encoder()(l) == link_bytes(l),
{
    let n = str_bytes(f.rel).len() as int;
    lemma_be_len(f.size as nat, 8);
    lemma_be_len(f.mtime as nat, 4);
    lemma_spans();
    lemma_be_round_trip(f.size as nat, 8);
    lemma_be_round_trip(f.mtime as nat, 4);
    assert(file_bytes(f).take(n) =~= str_bytes(f.rel));
    assert(file_bytes(f).subrange(n, n + 8) =~= be(f.size as nat, 8));
    assert(file_bytes(f).subrange(n + 8, n + 12) =~= be(f.mtime as nat, 4));
}

/// A handshake is the byte 1 and the version; a goodbye is the byte 3; a plan is the byte 2, a
/// byte for each flag, 1 where it is set and 0 where not, and the lists of the excludes, of the
/// files and of the symlinks.
pub proof fn law_request_layout(r: RequestModel)
    ensures
        ({
            let b = request_bytes(r);
            match r {
                RequestModel::Hello { proto } => b.len() == 5 && b[0] == 1 && number(b.skip(1))
                    == proto,
                RequestModel::Bye => b.len() == 1 && b[0] == 3,
                RequestModel::Plan { include_hidden, prune, excludes, files, links } => {
                    &&& b.len() >= 3
                    &&& b[0] == 2
                    &&& b[1] == (if include_hidden { 1int } else { 0int })
                    &&& b[2] == (if prune { 1int } else { 0int })
                    &&& b.skip(3) == vec_bytes(str_encoder(), excludes) + vec_bytes(
                        file_encoder(),
                        files,
                    ) + vec_bytes(link_encoder(), links)
                },
            }
        }),
{
    let b = request_bytes(r);
    match r {
        RequestModel::Hello { proto } => {
            lemma_number(proto);
            assert(b.skip(1) =~= be(proto as nat, 4));
        },
        RequestModel::Bye => {},
        RequestModel::Plan { include_hidden, prune, excludes, files, links } => {
            assert(b.skip(3) =~= vec_bytes(str_encoder(), excludes) + vec_bytes(
                file_encoder(),
                files,
            ) + vec_bytes(link_encoder(), links));
        },
    }
}

/// A confirmed handshake is the byte 1 and the two versions; a worklist is the byte 2, the list
/// of the uploads and the three counters; an error is the byte 3 and its text.
pub proof fn law_response_layout(r: ResponseModel)
    ensures
        ({
            let b = response_bytes(r);
            match r {
                ResponseModel::HelloOk { agent, proto } => b.len() == 9 && b[0] == 1 && number(
                    b.skip(1),
                ) == agent && number(b.skip(5)) == proto,
                ResponseModel::Worklist { uploads, created_dirs, pruned, symlinks } => {
                    let n = vec_bytes(str_encoder(), uploads).len() as int;
                    &&& b.len() == 1 + n + 12
                    &&& b[0] == 2
                    &&& b.subrange(1, 1 + n) == vec_bytes(str_encoder(), uploads)
                    &&& number(b.skip(1 + n)) == created_dirs
                    &&& number(b.skip(1 + n + 4)) == pruned
                    &&& number(b.skip(1 + n + 8)) == symlinks
                },
                ResponseModel::Error { message } => b.len() >= 1 && b[0] == 3 && b.skip(1)
                    == str_bytes(message),
            }
        }),
{
    let b = response_bytes(r);
    assert forall|v: u32| (#[trigger] be(v as nat, 4)).len() == 4 by {
        lemma_be_len(v as nat, 4);
    }
    match r {
        ResponseModel::HelloOk { agent, proto } => {
            lemma_number_at(b, 1, agent);
            lemma_number_at(b, 5, proto);
        },
        ResponseModel::Worklist { uploads, created_dirs, pruned, symlinks } => {
            let list = vec_bytes(str_encoder(), uploads);
            let n = list.len() as int;
            assert(b.subrange(1, 1 + n) =~= list);
            lemma_number_at(b, 1 + n, created_dirs);
            lemma_number_at(b, 1 + n + 4, pruned);
            lemma_number_at(b, 1 + n + 8, symlinks);
        },
        ResponseModel::Error { message } => {
            assert(b.skip(1) =~= str_bytes(message));
        },
    }
}

proof fn lemma_number(v: u32)
    ensures
        be(v as nat, 4).len() == 4,
        number(be(v as nat, 4)) == v,
{
    lemma_be_len(v as nat, 4);
    lemma_spans();
    lemma_be_round_trip(v as nat, 4);
    lemma_four_bytes(be(v as nat, 4));
}

proof fn lemma_number_at(b: Seq<u8>, at: int, v: u32)
    requires
        0 <= at,
        at + 4 <= b.len(),
        b.subrange(at, at + 4) =~= be(v as nat, 4),
    ensures
        number(b.skip(at)) == v,
{
    lemma_number(v);
    let four = b.subrange(at, at + 4);
    assert(four[0] == b.skip(at)[0]);
    assert(four[1] == b.skip(at)[1]);
    assert(four[2] == b.skip(at)[2]);
    assert(four[3] == b.skip(at)[3]);
}

/// Any byte but zero sets a flag.
pub proof fn law_flags_are_set_by_any_byte_but_zero(
    a: u8,
    b: u8,
    c: u8,
    d: u8,
    rest: Seq<u8>,
)
    requires
        a == 0 <==> c == 0,
        b == 0 <==> d == 0,
    ensures
        request_of(seq![2u8, a, b] + rest) == request_of(seq![2u8, c, d] + rest),
        request_of(seq![2u8, a, b] + rest) matches Some(
            RequestModel::Plan { include_hidden, prune, .. },
        ) ==> include_hidden == (a != 0) && prune == (b != 0),
        !(request_of(seq![2u8, a, b] + rest) matches Some(RequestModel::Hello { .. })),
        !(request_of(seq![2u8, a, b] + rest) matches Some(RequestModel::Bye)),
{
    let x = seq![2u8, a, b] + rest;
    let y = seq![2u8, c, d] + rest;
    assert(agree_from(x, y, 3));
    lemma_readers(x, y, 3);
    lemma_same_vec(str_parser(), x, y, 3, 3);
    if let Some((_, l)) = parse_vec(str_parser(), x, 3) {
        lemma_same_vec(file_parser(), x, y, 3, l);
        if let Some((_, m)) = parse_vec(file_parser(), x, l) {
            lemma_same_vec(link_parser(), x, y, 3, m);
        }
    }
}

/// The two have the same bytes from `p` on.
spec fn agree_from(x: Seq<u8>, y: Seq<u8>, p: nat) -> bool {
    x.len() == y.len() && forall|k: int| p <= k < x.len() ==> #[trigger] x[k] == y[k]
}

/// From `p` on a parser reads the same in both, and never goes back.
spec fn reads_alike<T>(item: Parser<T>, x: Seq<u8>, y: Seq<u8>, p: nat) -> bool {
    forall|i: nat|
        i >= p ==> #[trigger] item(x, i) == item(y, i) && (item(x, i) matches Some((_, j))
            ==> j >= i)
}

proof fn lemma_same_u32(x: Seq<u8>, y: Seq<u8>, p: nat, i: nat)
    requires
        agree_from(x, y, p),
        i >= p,
    ensures
        parse_u32(x, i) == parse_u32(y, i),
{
    if i + 4 <= x.len() {
        assert(x.subrange(i as int, (i + 4) as int) =~= y.subrange(i as int, (i + 4) as int));
    }
}

proof fn lemma_same_u64(x: Seq<u8>, y: Seq<u8>, p: nat, i: nat)
    requires
        agree_from(x, y, p),
        i >= p,
    ensures
        parse_u64(x, i) == parse_u64(y, i),
{
    if i + 8 <= x.len() {
        assert(x.subrange(i as int, (i + 8) as int) =~= y.subrange(i as int, (i + 8) as int));
    }
}

proof fn lemma_same_str(x: Seq<u8>, y: Seq<u8>, p: nat, i: nat)
    requires
        agree_from(x, y, p),
        i >= p,
    ensures
        parse_str(x, i) == parse_str(y, i),
        parse_str(x, i) matches Some((_, j)) ==> j >= i,
{
    lemma_same_u32(x, y, p, i);
    if let Some((n, j)) = parse_u32(x, i) {
        if j + n <= x.len() {
            assert(x.subrange(j as int, j + n) =~= y.subrange(j as int, j + n));
        }
    }
}

proof fn lemma_readers(x: Seq<u8>, y: Seq<u8>, p: nat)
    requires
        agree_from(x, y, p),
    ensures
        reads_alike(str_parser(), x, y, p),
        reads_alike(file_parser(), x, y, p),
        reads_alike(link_parser(), x, y, p),
{
    assert forall|i: nat| i >= p implies #[trigger] str_parser()(x, i) == str_parser()(y, i) && (
    str_parser()(x, i) matches Some((_, j)) ==> j >= i) by {
        lemma_same_str(x, y, p, i);
    }
    assert forall|i: nat| i >= p implies #[trigger] file_parser()(x, i) == file_parser()(y, i) && (
    file_parser()(x, i) matches Some((_, j)) ==> j >= i) by {
        lemma_same_str(x, y, p, i);
        if let Some((_, j)) = parse_str(x, i) {
            lemma_same_u64(x, y, p, j);
            if let Some((_, k)) = parse_u64(x, j) {
                lemma_same_u32(x, y, p, k);
            }
        }
    }
    assert forall|i: nat| i >= p implies #[trigger] link_parser()(x, i) == link_parser()(y, i) && (
    link_parser()(x, i) matches Some((_, j)) ==> j >= i) by {
        lemma_same_str(x, y, p, i);
        if let Some((_, j)) = parse_str(x, i) {
            lemma_same_str(x, y, p, j);
        }
    }
}

proof fn lemma_same_items<T>(item: Parser<T>, x: Seq<u8>, y: Seq<u8>, p: nat, i: nat, n: nat)
    requires
        reads_alike(item, x, y, p),
        i >= p,
    ensures
        parse_items(item, x, i, n) == parse_items(item, y, i, n),
        parse_items(item, x, i, n) matches Some((_, j)) ==> j >= i,
    decreases n,
{
    if n > 0 {
        lemma_same_items(item, x, y, p, i, (n - 1) as nat);
        if let Some((_, j)) = parse_items(item, x, i, (n - 1) as nat) {
            assert(item(x, j) == item(y, j));
        }
    }
}

proof fn lemma_same_vec<T>(item: Parser<T>, x: Seq<u8>, y: Seq<u8>, p: nat, i: nat)
    requires
        agree_from(x, y, p),
        reads_alike(item, x, y, p),
        i >= p,
    ensures
        parse_vec(item, x, i) == parse_vec(item, y, i),
        parse_vec(item, x, i) matches Some((_, j)) ==> j >= i,
{
    lemma_same_u32(x, y, p, i);
    if let Some((n, j)) = parse_u32(x, i) {
        lemma_same_items(item, x, y, p, j, n as nat);
    }
}

/// A payload that starts with no known tag carries nothing.
pub proof fn law_unknown_tags_carry_nothing(b: Seq<u8>)
    requires
        b.len() == 0 || b[0] == 0 || b[0] > 3,
    ensures
        request_of(b) is None,
        response_of(b) is None,
{
}

/// A text is read as its four bytes announce it, wherever it stands and whatever its bytes are:
/// UTF-8 as such, other bytes as the repaired text. It cannot be read where bytes are missing.
pub proof fn law_texts_are_read_as_announced(b: Seq<u8>, i: nat)
    ensures
        i + 4 > b.len() ==> parse_str(b, i) is None,
        i + 4 <= b.len() ==> {
            let n = number(b.skip(i as int));
            let bytes = b.subrange((i + 4) as int, i + 4 + n);
            &&& i + 4 + n > b.len() ==> parse_str(b, i) is None
            &&& i + 4 + n <= b.len() && valid_utf8(bytes) ==> parse_str(b, i) == Some(
                (decode_utf8(bytes), (i + 4 + n) as nat),
            )
            &&& i + 4 + n <= b.len() && !valid_utf8(bytes) ==> parse_str(b, i) == Some(
                (repaired_utf8(bytes), (i + 4 + n) as nat),
            )
        },
{
    if i + 4 <= b.len() {
        let head = b.subrange(i as int, (i + 4) as int);
        lemma_four_bytes(head);
        assert(forall|k: int| 0 <= k < 4 ==> head[k] == b.skip(i as int)[k]);
        let n = number(head);
        assert(from_be(head) as u32 == n);
    }
}

} // verus!
