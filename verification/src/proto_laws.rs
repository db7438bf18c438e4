//! Laws of the wire protocol: what one side encodes, the other side decodes; what is cut short
//! decodes to nothing.

use vstd::prelude::*;
use vstd::utf8::{encode_utf8, encode_utf8_decode_utf8, encode_utf8_valid_utf8};

use crate::be::{be, lemma_be_len, lemma_be_round_trip, lemma_spans};
use crate::proto::{
    after_frame, bool_bytes, count_bytes, file_bytes, file_encoder, file_parser, frame_body,
    frame_bytes, has_frame, items_bytes, link_bytes, link_encoder, link_parser, parse_bool,
    parse_file, parse_items, parse_link, parse_plan, parse_request, parse_response, parse_str,
    parse_u32, parse_u64, parse_u8, parse_vec, parse_worklist, request_bytes, request_of,
    response_bytes, response_of, str_bytes, str_encoder, str_parser, vec_bytes, FileModel,
    LinkModel, Parser, RequestModel, ResponseModel,
};

verus! {

// --- what fits on the wire -----------------------------------------------------------------

/// A length or count that its four bytes can carry.
pub open spec fn count_fits(n: nat) -> bool {
    n < 0x1_0000_0000
}

/// A text whose UTF-8 length its four bytes can carry.
pub open spec fn str_fits(s: Seq<char>) -> bool {
    count_fits(encode_utf8(s).len())
}

/// A request whose lengths and counts all fit.
pub open spec fn request_fits(r: RequestModel) -> bool {
    match r {
        RequestModel::Plan { excludes, files, links, .. } => {
            &&& count_fits(excludes.len())
            &&& count_fits(files.len())
            &&& count_fits(links.len())
            &&& forall|i: int| 0 <= i < excludes.len() ==> str_fits(#[trigger] excludes[i])
            &&& forall|i: int| 0 <= i < files.len() ==> str_fits((#[trigger] files[i]).rel)
            &&& forall|i: int|
                0 <= i < links.len() ==> str_fits((#[trigger] links[i]).rel) && str_fits(
                    links[i].target,
                )
        },
        _ => true,
    }
}

/// A response whose lengths and counts all fit.
pub open spec fn response_fits(r: ResponseModel) -> bool {
    match r {
        ResponseModel::Worklist { uploads, .. } => {
            &&& count_fits(uploads.len())
            &&& forall|i: int| 0 <= i < uploads.len() ==> str_fits(#[trigger] uploads[i])
        },
        ResponseModel::Error { message } => str_fits(message),
        _ => true,
    }
}

// --- reading back --------------------------------------------------------------------------

/// `b` holds `s` at position `i`.
spec fn holds_at(b: Seq<u8>, i: nat, s: Seq<u8>) -> bool {
    &&& i + s.len() <= b.len()
    &&& b.subrange(i as int, (i + s.len()) as int) == s
}

proof fn lemma_holds_split(b: Seq<u8>, i: nat, s: Seq<u8>, t: Seq<u8>)
    requires
        holds_at(b, i, s + t),
    ensures
        holds_at(b, i, s),
        holds_at(b, i + s.len(), t),
{
    let whole = b.subrange(i as int, (i + (s + t).len()) as int);
    assert(b.subrange(i as int, (i + s.len()) as int) =~= whole.subrange(0, s.len() as int));
    assert(whole.subrange(0, s.len() as int) =~= s);
    assert(b.subrange((i + s.len()) as int, (i + s.len() + t.len()) as int) =~= whole.subrange(
        s.len() as int,
        (s + t).len() as int,
    ));
    assert(whole.subrange(s.len() as int, (s + t).len() as int) =~= t);
}

proof fn lemma_back_u8(b: Seq<u8>, i: nat, v: u8)
    requires
        holds_at(b, i, seq![v]),
    ensures
        parse_u8(b, i) == Some((v, i + 1)),
{
    assert(b.subrange(i as int, (i + 1) as int)[0] == seq![v][0]);
}

proof fn lemma_back_bool(b: Seq<u8>, i: nat, v: bool)
    requires
        holds_at(b, i, bool_bytes(v)),
    ensures
        parse_bool(b, i) == Some((v, i + 1)),
{
    lemma_back_u8(b, i, if v { 1 } else { 0 });
}

proof fn lemma_back_u32(b: Seq<u8>, i: nat, v: u32)
    requires
        holds_at(b, i, be(v as nat, 4)),
    ensures
        parse_u32(b, i) == Some((v, i + 4)),
{
    lemma_spans();
    lemma_be_round_trip(v as nat, 4);
}

proof fn lemma_back_u64(b: Seq<u8>, i: nat, v: u64)
    requires
        holds_at(b, i, be(v as nat, 8)),
    ensures
        parse_u64(b, i) == Some((v, i + 8)),
{
    lemma_spans();
    lemma_be_round_trip(v as nat, 8);
}

proof fn lemma_back_str(b: Seq<u8>, i: nat, s: Seq<char>)
    requires
        holds_at(b, i, str_bytes(s)),
        str_fits(s),
    ensures
        parse_str(b, i) == Some((s, i + str_bytes(s).len())),
{
    let n = encode_utf8(s).len();
    lemma_holds_split(b, i, count_bytes(n), encode_utf8(s));
    lemma_be_len(n, 4);
    lemma_back_u32(b, i, n as u32);
    encode_utf8_valid_utf8(s);
    encode_utf8_decode_utf8(s);
}

proof fn lemma_back_file(b: Seq<u8>, i: nat, f: FileModel)
    requires
        holds_at(b, i, file_bytes(f)),
        str_fits(f.rel),
    ensures
        parse_file(b, i) == Some((f, i + file_bytes(f).len())),
{
    let rel = str_bytes(f.rel);
    let size = be(f.size as nat, 8);
    let mtime = be(f.mtime as nat, 4);
    lemma_be_len(f.size as nat, 8);
    lemma_be_len(f.mtime as nat, 4);
    lemma_holds_split(b, i, rel + size, mtime);
    lemma_holds_split(b, i, rel, size);
    lemma_back_str(b, i, f.rel);
    lemma_back_u64(b, i + rel.len(), f.size);
    lemma_back_u32(b, i + rel.len() + 8, f.mtime);
}

proof fn lemma_back_link(b: Seq<u8>, i: nat, l: LinkModel)
    requires
        holds_at(b, i, link_bytes(l)),
        str_fits(l.rel),
        str_fits(l.target),
    ensures
        parse_link(b, i) == Some((l, i + link_bytes(l).len())),
{
    let rel = str_bytes(l.rel);
    lemma_holds_split(b, i, rel, str_bytes(l.target));
    lemma_back_str(b, i, l.rel);
    lemma_back_str(b, i + rel.len(), l.target);
}

/// Wherever `enc` put `x`, `item` reads it back.
spec fn reads_back<T>(item: Parser<T>, enc: spec_fn(T) -> Seq<u8>, x: T) -> bool {
    forall|b: Seq<u8>, i: nat| #[trigger]
        holds_at(b, i, enc(x)) ==> item(b, i) == Some((x, i + enc(x).len()))
}

proof fn lemma_back_items<T>(
    item: Parser<T>,
    enc: spec_fn(T) -> Seq<u8>,
    b: Seq<u8>,
    i: nat,
    v: Seq<T>,
)
    requires
        holds_at(b, i, items_bytes(enc, v)),
        forall|k: int| 0 <= k < v.len() ==> reads_back(item, enc, #[trigger] v[k]),
    ensures
        parse_items(item, b, i, v.len()) == Some((v, i + items_bytes(enc, v).len())),
    decreases v.len(),
{
    if v.len() == 0 {
        assert(v =~= Seq::empty());
    } else {
        let front = v.drop_last();
        lemma_holds_split(b, i, items_bytes(enc, front), enc(v.last()));
        assert forall|k: int| 0 <= k < front.len() implies reads_back(
            item,
            enc,
            #[trigger] front[k],
        ) by {
            assert(front[k] == v[k]);
        }
        lemma_back_items(item, enc, b, i, front);
        assert(reads_back(item, enc, v[v.len() - 1]));
        assert(front.push(v.last()) =~= v);
    }
}

proof fn lemma_back_vec<T>(
    item: Parser<T>,
    enc: spec_fn(T) -> Seq<u8>,
    b: Seq<u8>,
    i: nat,
    v: Seq<T>,
)
    requires
        holds_at(b, i, vec_bytes(enc, v)),
        count_fits(v.len()),
        forall|k: int| 0 <= k < v.len() ==> reads_back(item, enc, #[trigger] v[k]),
    ensures
        parse_vec(item, b, i) == Some((v, i + vec_bytes(enc, v).len())),
{
    lemma_be_len(v.len(), 4);
    lemma_holds_split(b, i, count_bytes(v.len()), items_bytes(enc, v));
    lemma_back_u32(b, i, v.len() as u32);
    lemma_back_items(item, enc, b, i + 4, v);
}

proof fn lemma_back_strs(b: Seq<u8>, i: nat, v: Seq<Seq<char>>)
    requires
        holds_at(b, i, vec_bytes(str_encoder(), v)),
        count_fits(v.len()),
        forall|k: int| 0 <= k < v.len() ==> str_fits(#[trigger] v[k]),
    ensures
        parse_vec(str_parser(), b, i) == Some((v, i + vec_bytes(str_encoder(), v).len())),
{
    assert forall|k: int| 0 <= k < v.len() implies reads_back(
        str_parser(),
        str_encoder(),
        #[trigger] v[k],
    ) by {
        assert forall|c: Seq<u8>, j: nat| #[trigger]
            holds_at(c, j, str_encoder()(v[k])) implies str_parser()(c, j) == Some(
            (v[k], j + str_encoder()(v[k]).len()),
        ) by {
            lemma_back_str(c, j, v[k]);
        }
    }
    lemma_back_vec(str_parser(), str_encoder(), b, i, v);
}

proof fn lemma_back_files(b: Seq<u8>, i: nat, v: Seq<FileModel>)
    requires
        holds_at(b, i, vec_bytes(file_encoder(), v)),
        count_fits(v.len()),
        forall|k: int| 0 <= k < v.len() ==> str_fits((#[trigger] v[k]).rel),
    ensures
        parse_vec(file_parser(), b, i) == Some((v, i + vec_bytes(file_encoder(), v).len())),
{
    assert forall|k: int| 0 <= k < v.len() implies reads_back(
        file_parser(),
        file_encoder(),
        #[trigger] v[k],
    ) by {
        assert forall|c: Seq<u8>, j: nat| #[trigger]
            holds_at(c, j, file_encoder()(v[k])) implies file_parser()(c, j) == Some(
            (v[k], j + file_encoder()(v[k]).len()),
        ) by {
            lemma_back_file(c, j, v[k]);
        }
    }
    lemma_back_vec(file_parser(), file_encoder(), b, i, v);
}

proof fn lemma_back_links(b: Seq<u8>, i: nat, v: Seq<LinkModel>)
    requires
        holds_at(b, i, vec_bytes(link_encoder(), v)),
        count_fits(v.len()),
        forall|k: int|
            0 <= k < v.len() ==> str_fits((#[trigger] v[k]).rel) && str_fits(v[k].target),
    ensures
        parse_vec(link_parser(), b, i) == Some((v, i + vec_bytes(link_encoder(), v).len())),
{
    assert forall|k: int| 0 <= k < v.len() implies reads_back(
        link_parser(),
        link_encoder(),
        #[trigger] v[k],
    ) by {
        assert forall|c: Seq<u8>, j: nat| #[trigger]
            holds_at(c, j, link_encoder()(v[k])) implies link_parser()(c, j) == Some(
            (v[k], j + link_encoder()(v[k]).len()),
        ) by {
            lemma_back_link(c, j, v[k]);
        }
    }
    lemma_back_vec(link_parser(), link_encoder(), b, i, v);
}

proof fn lemma_back_request(b: Seq<u8>, r: RequestModel)
    requires
        holds_at(b, 0, request_bytes(r)),
        request_fits(r),
    ensures
        parse_request(b) == Some((r, request_bytes(r).len())),
{
    match r {
        RequestModel::Hello { proto } => {
            lemma_be_len(proto as nat, 4);
            lemma_holds_split(b, 0, seq![crate::proto::T_HELLO], be(proto as nat, 4));
            lemma_back_u8(b, 0, crate::proto::T_HELLO);
            lemma_back_u32(b, 1, proto);
        },
        RequestModel::Plan { include_hidden, prune, excludes, files, links } => {
            let s0 = seq![crate::proto::T_PLAN];
            let s1 = bool_bytes(include_hidden);
            let s2 = bool_bytes(prune);
            let s3 = vec_bytes(str_encoder(), excludes);
            let s4 = vec_bytes(file_encoder(), files);
            let s5 = vec_bytes(link_encoder(), links);
            lemma_holds_split(b, 0, s0 + s1 + s2 + s3 + s4, s5);
            lemma_holds_split(b, 0, s0 + s1 + s2 + s3, s4);
            lemma_holds_split(b, 0, s0 + s1 + s2, s3);
            lemma_holds_split(b, 0, s0 + s1, s2);
            lemma_holds_split(b, 0, s0, s1);
            lemma_back_u8(b, 0, crate::proto::T_PLAN);
            lemma_back_bool(b, 1, include_hidden);
            lemma_back_bool(b, 2, prune);
            lemma_back_strs(b, 3, excludes);
            lemma_back_files(b, 3 + s3.len(), files);
            lemma_back_links(b, 3 + s3.len() + s4.len(), links);
        },
        RequestModel::Bye => {
            lemma_back_u8(b, 0, crate::proto::T_BYE);
        },
    }
}

proof fn lemma_back_response(b: Seq<u8>, r: ResponseModel)
    requires
        holds_at(b, 0, response_bytes(r)),
        response_fits(r),
    ensures
        parse_response(b) == Some((r, response_bytes(r).len())),
{
    match r {
        ResponseModel::HelloOk { agent, proto } => {
            let s0 = seq![crate::proto::R_HELLO_OK];
            lemma_be_len(agent as nat, 4);
            lemma_be_len(proto as nat, 4);
            lemma_holds_split(b, 0, s0 + be(agent as nat, 4), be(proto as nat, 4));
            lemma_holds_split(b, 0, s0, be(agent as nat, 4));
            lemma_back_u8(b, 0, crate::proto::R_HELLO_OK);
            lemma_back_u32(b, 1, agent);
            lemma_back_u32(b, 5, proto);
        },
        ResponseModel::Worklist { uploads, created_dirs, pruned, symlinks } => {
            let s0 = seq![crate::proto::R_WORKLIST];
            let s1 = vec_bytes(str_encoder(), uploads);
            let s2 = be(created_dirs as nat, 4);
            let s3 = be(pruned as nat, 4);
            let s4 = be(symlinks as nat, 4);
            lemma_be_len(created_dirs as nat, 4);
            lemma_be_len(pruned as nat, 4);
            lemma_be_len(symlinks as nat, 4);
            lemma_holds_split(b, 0, s0 + s1 + s2 + s3, s4);
            lemma_holds_split(b, 0, s0 + s1 + s2, s3);
            lemma_holds_split(b, 0, s0 + s1, s2);
            lemma_holds_split(b, 0, s0, s1);
            lemma_back_u8(b, 0, crate::proto::R_WORKLIST);
            lemma_back_strs(b, 1, uploads);
            lemma_back_u32(b, 1 + s1.len(), created_dirs);
            lemma_back_u32(b, 5 + s1.len(), pruned);
            lemma_back_u32(b, 9 + s1.len(), symlinks);
        },
        ResponseModel::Error { message } => {
            lemma_holds_split(b, 0, seq![crate::proto::R_ERROR], str_bytes(message));
            lemma_back_u8(b, 0, crate::proto::R_ERROR);
            lemma_back_str(b, 1, message);
        },
    }
}

// --- cut short -----------------------------------------------------------------------------

/// `a` is a prefix of `b`.
spec fn is_cut(a: Seq<u8>, b: Seq<u8>) -> bool {
    a.len() <= b.len() && a == b.subrange(0, a.len() as int)
}

/// What `p` read of `a` it reads of `b` too, and it did not look behind the end of `a`.
spec fn same_read<T>(a: Seq<u8>, i: nat, pa: Option<(T, nat)>, pb: Option<(T, nat)>) -> bool {
    match pa {
        Some((_, j)) => pb == pa && i <= j <= a.len(),
        None => true,
    }
}

/// An element reader that reads more bytes the same way.
spec fn steady<T>(item: Parser<T>) -> bool {
    forall|a: Seq<u8>, b: Seq<u8>, i: nat| #[trigger]
        is_cut(a, b) ==> same_read(a, i, #[trigger] item(a, i), item(b, i))
}

proof fn lemma_cut_sub(a: Seq<u8>, b: Seq<u8>, i: nat, j: nat)
    requires
        is_cut(a, b),
        i <= j <= a.len(),
    ensures
        a.subrange(i as int, j as int) == b.subrange(i as int, j as int),
{
    assert(a.subrange(i as int, j as int) =~= b.subrange(i as int, j as int));
}

proof fn lemma_cut_u32(a: Seq<u8>, b: Seq<u8>, i: nat)
    requires
        is_cut(a, b),
    ensures
        same_read(a, i, parse_u32(a, i), parse_u32(b, i)),
{
    if i + 4 <= a.len() {
        lemma_cut_sub(a, b, i, i + 4);
    }
}

proof fn lemma_cut_u64(a: Seq<u8>, b: Seq<u8>, i: nat)
    requires
        is_cut(a, b),
    ensures
        same_read(a, i, parse_u64(a, i), parse_u64(b, i)),
{
    if i + 8 <= a.len() {
        lemma_cut_sub(a, b, i, i + 8);
    }
}

proof fn lemma_cut_str(a: Seq<u8>, b: Seq<u8>, i: nat)
    requires
        is_cut(a, b),
    ensures
        same_read(a, i, parse_str(a, i), parse_str(b, i)),
{
    lemma_cut_u32(a, b, i);
    if let Some((n, j)) = parse_u32(a, i) {
        if j + n <= a.len() {
            lemma_cut_sub(a, b, j, j + n as nat);
        }
    }
}

proof fn lemma_cut_file(a: Seq<u8>, b: Seq<u8>, i: nat)
    requires
        is_cut(a, b),
    ensures
        same_read(a, i, parse_file(a, i), parse_file(b, i)),
{
    lemma_cut_str(a, b, i);
    if let Some((_, j)) = parse_str(a, i) {
        lemma_cut_u64(a, b, j);
        if let Some((_, k)) = parse_u64(a, j) {
            lemma_cut_u32(a, b, k);
        }
    }
}

proof fn lemma_cut_link(a: Seq<u8>, b: Seq<u8>, i: nat)
    requires
        is_cut(a, b),
    ensures
        same_read(a, i, parse_link(a, i), parse_link(b, i)),
{
    lemma_cut_str(a, b, i);
    if let Some((_, j)) = parse_str(a, i) {
        lemma_cut_str(a, b, j);
    }
}

proof fn lemma_cut_items<T>(item: Parser<T>, a: Seq<u8>, b: Seq<u8>, i: nat, n: nat)
    requires
        is_cut(a, b),
        steady(item),
        i <= a.len(),
    ensures
        same_read(a, i, parse_items(item, a, i, n), parse_items(item, b, i, n)),
    decreases n,
{
    if n > 0 {
        lemma_cut_items(item, a, b, i, (n - 1) as nat);
        if let Some((_, j)) = parse_items(item, a, i, (n - 1) as nat) {
            assert(same_read(a, j, item(a, j), item(b, j)));
        }
    }
}

proof fn lemma_cut_vec<T>(item: Parser<T>, a: Seq<u8>, b: Seq<u8>, i: nat)
    requires
        is_cut(a, b),
        steady(item),
    ensures
        same_read(a, i, parse_vec(item, a, i), parse_vec(item, b, i)),
{
    lemma_cut_u32(a, b, i);
    if let Some((n, j)) = parse_u32(a, i) {
        lemma_cut_items(item, a, b, j, n as nat);
    }
}

proof fn lemma_parsers_steady()
    ensures
        steady(str_parser()),
        steady(file_parser()),
        steady(link_parser()),
{
    assert forall|a: Seq<u8>, b: Seq<u8>, i: nat| #[trigger] is_cut(a, b) implies same_read(
        a,
        i,
        #[trigger] str_parser()(a, i),
        str_parser()(b, i),
    ) by {
        lemma_cut_str(a, b, i);
    }
    assert forall|a: Seq<u8>, b: Seq<u8>, i: nat| #[trigger] is_cut(a, b) implies same_read(
        a,
        i,
        #[trigger] file_parser()(a, i),
        file_parser()(b, i),
    ) by {
        lemma_cut_file(a, b, i);
    }
    assert forall|a: Seq<u8>, b: Seq<u8>, i: nat| #[trigger] is_cut(a, b) implies same_read(
        a,
        i,
        #[trigger] link_parser()(a, i),
        link_parser()(b, i),
    ) by {
        lemma_cut_link(a, b, i);
    }
}

proof fn lemma_cut_plan(a: Seq<u8>, b: Seq<u8>, i: nat)
    requires
        is_cut(a, b),
    ensures
        same_read(a, i, parse_plan(a, i), parse_plan(b, i)),
{
    lemma_parsers_steady();
    if let Some((_, j)) = parse_bool(a, i) {
        if let Some((_, k)) = parse_bool(a, j) {
            lemma_cut_vec(str_parser(), a, b, k);
            if let Some((_, l)) = parse_vec(str_parser(), a, k) {
                lemma_cut_vec(file_parser(), a, b, l);
                if let Some((_, m)) = parse_vec(file_parser(), a, l) {
                    lemma_cut_vec(link_parser(), a, b, m);
                }
            }
        }
    }
}

proof fn lemma_cut_worklist(a: Seq<u8>, b: Seq<u8>, i: nat)
    requires
        is_cut(a, b),
    ensures
        same_read(a, i, parse_worklist(a, i), parse_worklist(b, i)),
{
    lemma_parsers_steady();
    lemma_cut_vec(str_parser(), a, b, i);
    if let Some((_, j)) = parse_vec(str_parser(), a, i) {
        lemma_cut_u32(a, b, j);
        lemma_cut_u32(a, b, j + 4);
        lemma_cut_u32(a, b, j + 8);
    }
}

proof fn lemma_cut_request(a: Seq<u8>, b: Seq<u8>)
    requires
        is_cut(a, b),
    ensures
        same_read(a, 0, parse_request(a), parse_request(b)),
{
    if a.len() > 0 {
        assert(a[0] == b[0]);
        lemma_cut_u32(a, b, 1);
        lemma_cut_plan(a, b, 1);
    }
}

proof fn lemma_cut_response(a: Seq<u8>, b: Seq<u8>)
    requires
        is_cut(a, b),
    ensures
        same_read(a, 0, parse_response(a), parse_response(b)),
{
    if a.len() > 0 {
        assert(a[0] == b[0]);
        lemma_cut_u32(a, b, 1);
        lemma_cut_u32(a, b, 5);
        lemma_cut_str(a, b, 1);
        lemma_cut_worklist(a, b, 1);
    }
}

// --- the laws ------------------------------------------------------------------------------

/// A request survives the wire: whatever bytes follow its encoding, decoding gives it back.
pub proof fn law_request_round_trips(r: RequestModel, rest: Seq<u8>)
    requires
        request_fits(r),
    ensures
        request_of(request_bytes(r) + rest) == Some(r),
        request_of(request_bytes(r)) == Some(r),
{
    let s = request_bytes(r);
    assert((s + rest).subrange(0, s.len() as int) =~= s);
    lemma_back_request(s + rest, r);
    assert(s.subrange(0, s.len() as int) =~= s);
    lemma_back_request(s, r);
}

/// A response survives the wire: whatever bytes follow its encoding, decoding gives it back.
pub proof fn law_response_round_trips(r: ResponseModel, rest: Seq<u8>)
    requires
        response_fits(r),
    ensures
        response_of(response_bytes(r) + rest) == Some(r),
        response_of(response_bytes(r)) == Some(r),
{
    let s = response_bytes(r);
    assert((s + rest).subrange(0, s.len() as int) =~= s);
    lemma_back_response(s + rest, r);
    assert(s.subrange(0, s.len() as int) =~= s);
    lemma_back_response(s, r);
}

/// A request whose encoding is cut anywhere decodes to nothing.
pub proof fn law_truncated_request_is_none(r: RequestModel, k: nat)
    requires
        request_fits(r),
        k < request_bytes(r).len(),
    ensures
        request_of(request_bytes(r).subrange(0, k as int)) is None,
{
    let s = request_bytes(r);
    let cut = s.subrange(0, k as int);
    assert(s.subrange(0, s.len() as int) =~= s);
    lemma_back_request(s, r);
    lemma_cut_request(cut, s);
}

/// A response whose encoding is cut anywhere decodes to nothing.
pub proof fn law_truncated_response_is_none(r: ResponseModel, k: nat)
    requires
        response_fits(r),
        k < response_bytes(r).len(),
    ensures
        response_of(response_bytes(r).subrange(0, k as int)) is None,
{
    let s = response_bytes(r);
    let cut = s.subrange(0, k as int);
    assert(s.subrange(0, s.len() as int) =~= s);
    lemma_back_response(s, r);
    lemma_cut_response(cut, s);
}

/// No two requests share an encoding.
pub proof fn law_request_encoding_is_injective(r: RequestModel, q: RequestModel)
    requires
        request_fits(r),
        request_fits(q),
        request_bytes(r) == request_bytes(q),
    ensures
        r == q,
{
    law_request_round_trips(r, Seq::empty());
    law_request_round_trips(q, Seq::empty());
}

/// No two responses share an encoding.
pub proof fn law_response_encoding_is_injective(r: ResponseModel, q: ResponseModel)
    requires
        response_fits(r),
        response_fits(q),
        response_bytes(r) == response_bytes(q),
    ensures
        r == q,
{
    law_response_round_trips(r, Seq::empty());
    law_response_round_trips(q, Seq::empty());
}

/// Reading a frame gives back the body that was written, and leaves what follows it.
pub proof fn law_frame_round_trips(body: Seq<u8>, rest: Seq<u8>)
    requires
        count_fits(body.len()),
    ensures
        has_frame(frame_bytes(body) + rest),
        frame_body(frame_bytes(body) + rest) == body,
        after_frame(frame_bytes(body) + rest) == rest,
{
    let input = frame_bytes(body) + rest;
    lemma_spans();
    lemma_be_round_trip(body.len(), 4);
    assert(input.subrange(0, 4) =~= count_bytes(body.len()));
    assert(frame_body(input) =~= body);
    assert(after_frame(input) =~= rest);
}

/// A frame that is cut anywhere is no frame.
pub proof fn law_truncated_frame_is_refused(body: Seq<u8>, k: nat)
    requires
        count_fits(body.len()),
        k < frame_bytes(body).len(),
    ensures
        !has_frame(frame_bytes(body).subrange(0, k as int)),
{
    lemma_spans();
    lemma_be_round_trip(body.len(), 4);
    let cut = frame_bytes(body).subrange(0, k as int);
    if k >= 4 {
        assert(cut.subrange(0, 4) =~= count_bytes(body.len()));
    }
}

/// A request that was encoded, framed, read as a frame and decoded is the request that was sent.
pub proof fn law_request_survives_exchange(r: RequestModel, rest: Seq<u8>)
    requires
        request_fits(r),
        count_fits(request_bytes(r).len()),
    ensures
        request_of(frame_body(frame_bytes(request_bytes(r)) + rest)) == Some(r),
{
    law_frame_round_trips(request_bytes(r), rest);
    law_request_round_trips(r, Seq::empty());
}

/// A response that was encoded, framed, read as a frame and decoded is the response that was
/// sent.
pub proof fn law_response_survives_exchange(r: ResponseModel, rest: Seq<u8>)
    requires
        response_fits(r),
        count_fits(response_bytes(r).len()),
    ensures
        response_of(frame_body(frame_bytes(response_bytes(r)) + rest)) == Some(r),
{
    law_frame_round_trips(response_bytes(r), rest);
    law_response_round_trips(r, Seq::empty());
}

} // verus!
