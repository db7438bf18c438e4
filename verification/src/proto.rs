//! The host and agent wire protocol: length-prefixed frames that carry explicitly encoded
//! messages.
//!
//! Frame: a `u32` big-endian length, then that many payload bytes.
//! Payload: a `u8` message tag, then tag-specific fields.
//! Primitives: `u32` and `u64` big-endian; `bool` as one byte; `str` as `u32` length and UTF-8
//! bytes; `vec<T>` as `u32` count and elements.

use vstd::prelude::*;
use vstd::slice::{slice_subrange, slice_to_vec};
use vstd::utf8::encode_utf8;

use crate::be::{be, from_be, get_u32, get_u64, put_u32, put_u64};
use crate::text::{from_utf8_lossy, lossy_text};

verus! {

/// Bumped on any incompatible change to the encodings below. The host refuses a mismatch.
pub const PROTOCOL_VERSION: u32 = 1;

pub const T_HELLO: u8 = 1;

pub const T_PLAN: u8 = 2;

pub const T_BYE: u8 = 3;

pub const R_HELLO_OK: u8 = 1;

pub const R_WORKLIST: u8 = 2;

pub const R_ERROR: u8 = 3;

/// One regular file in a manifest: path relative to the build root, plus the quick-check keys.
#[derive(Debug, Clone, PartialEq, Eq)]
pub struct FileEntry {
    pub rel: String,
    pub size: u64,
    pub mtime: u32,
}

/// One symlink in a manifest: path relative to the build root, plus its verbatim target.
#[derive(Debug, Clone, PartialEq, Eq)]
pub struct LinkEntry {
    pub rel: String,
    pub target: String,
}

/// What a [`FileEntry`] says.
pub struct FileModel {
    pub rel: Seq<char>,
    pub size: u64,
    pub mtime: u32,
}

/// What a [`LinkEntry`] says.
pub struct LinkModel {
    pub rel: Seq<char>,
    pub target: Seq<char>,
}

impl DeepView for FileEntry {
    type V = FileModel;

    open spec fn deep_view(&self) -> FileModel {
        FileModel { rel: self.rel@, size: self.size, mtime: self.mtime }
    }
}

impl DeepView for LinkEntry {
    type V = LinkModel;

    open spec fn deep_view(&self) -> LinkModel {
        LinkModel { rel: self.rel@, target: self.target@ }
    }
}

/// Host to agent.
#[derive(Debug, Clone, PartialEq, Eq)]
pub enum Request {
    /// Version handshake.
    Hello { proto: u32 },
    /// The full local source manifest and the sync policy. The agent reconciles its own tree
    /// against this: creates needed dirs, recreates changed symlinks, prunes extraneous entries
    /// (when `prune`), and replies with the files whose contents the host must upload.
    Plan {
        include_hidden: bool,
        prune: bool,
        excludes: Vec<String>,
        files: Vec<FileEntry>,
        links: Vec<LinkEntry>,
    },
    /// Graceful shutdown.
    Bye,
}

/// Agent to host.
#[derive(Debug, Clone, PartialEq, Eq)]
pub enum Response {
    HelloOk { agent: u32, proto: u32 },
    /// The reconciliation result: `uploads` are the rel paths whose bytes the host must now send
    /// (parents already created by the agent). The counters are for logging.
    Worklist { uploads: Vec<String>, created_dirs: u32, pruned: u32, symlinks: u32 },
    /// The agent could not satisfy the request (e.g. a filesystem error it can't recover from).
    Error { message: String },
}

/// What a [`Request`] says.
pub enum RequestModel {
    Hello { proto: u32 },
    Plan {
        include_hidden: bool,
        prune: bool,
        excludes: Seq<Seq<char>>,
        files: Seq<FileModel>,
        links: Seq<LinkModel>,
    },
    Bye,
}

/// What a [`Response`] says.
pub enum ResponseModel {
    HelloOk { agent: u32, proto: u32 },
    Worklist { uploads: Seq<Seq<char>>, created_dirs: u32, pruned: u32, symlinks: u32 },
    Error { message: Seq<char> },
}

impl DeepView for Request {
    type V = RequestModel;

    open spec fn deep_view(&self) -> RequestModel {
        match self {
            Request::Hello { proto } => RequestModel::Hello { proto: *proto },
            Request::Plan { include_hidden, prune, excludes, files, links } => RequestModel::Plan {
                include_hidden: *include_hidden,
                prune: *prune,
                excludes: excludes.deep_view(),
                files: files.deep_view(),
                links: links.deep_view(),
            },
            Request::Bye => RequestModel::Bye,
        }
    }
}

impl DeepView for Response {
    type V = ResponseModel;

    open spec fn deep_view(&self) -> ResponseModel {
        match self {
            Response::HelloOk { agent, proto } => ResponseModel::HelloOk {
                agent: *agent,
                proto: *proto,
            },
            Response::Worklist { uploads, created_dirs, pruned, symlinks } => {
                ResponseModel::Worklist {
                    uploads: uploads.deep_view(),
                    created_dirs: *created_dirs,
                    pruned: *pruned,
                    symlinks: *symlinks,
                }
            },
            Response::Error { message } => ResponseModel::Error { message: message@ },
        }
    }
}

// --- encoding ------------------------------------------------------------------------------

/// A length or count as it is put on the wire: its low 32 bits, in four bytes.
pub open spec fn count_bytes(n: nat) -> Seq<u8> {
    be(n % 0x1_0000_0000, 4)
}

/// One byte for a `bool`.
pub open spec fn bool_bytes(v: bool) -> Seq<u8> {
    seq![if v { 1u8 } else { 0u8 }]
}

/// A text: the length of its UTF-8 bytes, then the bytes.
pub open spec fn str_bytes(s: Seq<char>) -> Seq<u8> {
    count_bytes(encode_utf8(s).len()) + encode_utf8(s)
}

/// A manifest file.
pub open spec fn file_bytes(f: FileModel) -> Seq<u8> {
    str_bytes(f.rel) + be(f.size as nat, 8) + be(f.mtime as nat, 4)
}

/// A manifest symlink.
pub open spec fn link_bytes(l: LinkModel) -> Seq<u8> {
    str_bytes(l.rel) + str_bytes(l.target)
}

/// The encodings of the elements of `v`, one after the other.
pub open spec fn items_bytes<T>(item: spec_fn(T) -> Seq<u8>, v: Seq<T>) -> Seq<u8>
    decreases v.len(),
{
    if v.len() == 0 {
        Seq::empty()
    } else {
        items_bytes(item, v.drop_last()) + item(v.last())
    }
}

/// A sequence: its count, then its elements.
pub open spec fn vec_bytes<T>(item: spec_fn(T) -> Seq<u8>, v: Seq<T>) -> Seq<u8> {
    count_bytes(v.len()) + items_bytes(item, v)
}

/// [`str_bytes`] as a function value.
pub open spec fn str_encoder() -> spec_fn(Seq<char>) -> Seq<u8> {
    |s: Seq<char>| str_bytes(s)
}

/// [`file_bytes`] as a function value.
pub open spec fn file_encoder() -> spec_fn(FileModel) -> Seq<u8> {
    |f: FileModel| file_bytes(f)
}

/// [`link_bytes`] as a function value.
pub open spec fn link_encoder() -> spec_fn(LinkModel) -> Seq<u8> {
    |l: LinkModel| link_bytes(l)
}

/// The payload of a request.
pub open spec fn request_bytes(r: RequestModel) -> Seq<u8> {
    match r {
        RequestModel::Hello { proto } => seq![T_HELLO] + be(proto as nat, 4),
        RequestModel::Plan { include_hidden, prune, excludes, files, links } => {
            seq![T_PLAN] + bool_bytes(include_hidden) + bool_bytes(prune) + vec_bytes(
                str_encoder(),
                excludes,
            ) + vec_bytes(file_encoder(), files) + vec_bytes(link_encoder(), links)
        },
        RequestModel::Bye => seq![T_BYE],
    }
}

/// The payload of a response.
pub open spec fn response_bytes(r: ResponseModel) -> Seq<u8> {
    match r {
        ResponseModel::HelloOk { agent, proto } => {
            seq![R_HELLO_OK] + be(agent as nat, 4) + be(proto as nat, 4)
        },
        ResponseModel::Worklist { uploads, created_dirs, pruned, symlinks } => {
            seq![R_WORKLIST] + vec_bytes(str_encoder(), uploads) + be(created_dirs as nat, 4) + be(
                pruned as nat,
                4,
            ) + be(symlinks as nat, 4)
        },
        ResponseModel::Error { message } => seq![R_ERROR] + str_bytes(message),
    }
}

/// Appends a length or count.
fn put_count(out: &mut Vec<u8>, n: usize)
    ensures
        final(out)@ == old(out)@ + count_bytes(n as nat),
{
    let low: u32 = (n as u64 % 0x1_0000_0000) as u32;
    put_u32(out, low);
}

fn put_bool(out: &mut Vec<u8>, v: bool)
    ensures
        final(out)@ == old(out)@ + bool_bytes(v),
{
    out.push(if v { 1 } else { 0 });
    assert(out@ =~= old(out)@ + bool_bytes(v));
}

fn put_bytes(out: &mut Vec<u8>, bytes: &[u8])
    ensures
        final(out)@ == old(out)@ + bytes@,
{
    out.extend_from_slice(bytes);
    assert(out@ =~= old(out)@ + bytes@);
}

fn put_str(out: &mut Vec<u8>, s: &str)
    ensures
        final(out)@ == old(out)@ + str_bytes(s@),
{
    let bytes = s.as_bytes();
    put_count(out, bytes.len());
    put_bytes(out, bytes);
    assert(out@ =~= old(out)@ + str_bytes(s@));
}

fn put_strs(out: &mut Vec<u8>, v: &Vec<String>)
    ensures
        final(out)@ == old(out)@ + vec_bytes(str_encoder(), v.deep_view()),
{
    put_count(out, v.len());
    let ghost start = out@;
    let ghost model = v.deep_view();
    let mut i: usize = 0;
    while i < v.len()
        invariant
            i <= v@.len(),
            model == v.deep_view(),
            out@ == start + items_bytes(str_encoder(), model.take(i as int)),
        decreases v@.len() - i,
    {
        put_str(out, v[i].as_str());
        proof {
            assert(model.take(i + 1).drop_last() =~= model.take(i as int));
            assert(model.take(i + 1).last() == v@[i as int]@);
            assert(out@ =~= start + items_bytes(str_encoder(), model.take(i + 1)));
        }
        i += 1;
    }
    assert(model.take(i as int) =~= model);
    assert(out@ =~= old(out)@ + vec_bytes(str_encoder(), v.deep_view()));
}

fn put_files(out: &mut Vec<u8>, v: &Vec<FileEntry>)
    ensures
        final(out)@ == old(out)@ + vec_bytes(file_encoder(), v.deep_view()),
{
    put_count(out, v.len());
    let ghost start = out@;
    let ghost model = v.deep_view();
    let mut i: usize = 0;
    while i < v.len()
        invariant
            i <= v@.len(),
            model == v.deep_view(),
            out@ == start + items_bytes(file_encoder(), model.take(i as int)),
        decreases v@.len() - i,
    {
        put_str(out, v[i].rel.as_str());
        put_u64(out, v[i].size);
        put_u32(out, v[i].mtime);
        proof {
            assert(model.take(i + 1).drop_last() =~= model.take(i as int));
            assert(model.take(i + 1).last() == v@[i as int].deep_view());
            assert(out@ =~= start + items_bytes(file_encoder(), model.take(i + 1)));
        }
        i += 1;
    }
    assert(model.take(i as int) =~= model);
    assert(out@ =~= old(out)@ + vec_bytes(file_encoder(), v.deep_view()));
}

fn put_links(out: &mut Vec<u8>, v: &Vec<LinkEntry>)
    ensures
        final(out)@ == old(out)@ + vec_bytes(link_encoder(), v.deep_view()),
{
    put_count(out, v.len());
    let ghost start = out@;
    let ghost model = v.deep_view();
    let mut i: usize = 0;
    while i < v.len()
        invariant
            i <= v@.len(),
            model == v.deep_view(),
            out@ == start + items_bytes(link_encoder(), model.take(i as int)),
        decreases v@.len() - i,
    {
        put_str(out, v[i].rel.as_str());
        put_str(out, v[i].target.as_str());
        proof {
            assert(model.take(i + 1).drop_last() =~= model.take(i as int));
            assert(model.take(i + 1).last() == v@[i as int].deep_view());
            assert(out@ =~= start + items_bytes(link_encoder(), model.take(i + 1)));
        }
        i += 1;
    }
    assert(model.take(i as int) =~= model);
    assert(out@ =~= old(out)@ + vec_bytes(link_encoder(), v.deep_view()));
}

// --- decoding ------------------------------------------------------------------------------

/// The byte at `i`, and the position behind it.
pub open spec fn parse_u8(b: Seq<u8>, i: nat) -> Option<(u8, nat)> {
    if i + 1 <= b.len() {
        Some((b[i as int], i + 1))
    } else {
        None
    }
}

/// The four byte number at `i`, and the position behind it.
pub open spec fn parse_u32(b: Seq<u8>, i: nat) -> Option<(u32, nat)> {
    if i + 4 <= b.len() {
        Some((from_be(b.subrange(i as int, (i + 4) as int)) as u32, i + 4))
    } else {
        None
    }
}

/// The eight byte number at `i`, and the position behind it.
pub open spec fn parse_u64(b: Seq<u8>, i: nat) -> Option<(u64, nat)> {
    if i + 8 <= b.len() {
        Some((from_be(b.subrange(i as int, (i + 8) as int)) as u64, i + 8))
    } else {
        None
    }
}

/// The `bool` at `i`: any byte but zero is true.
pub open spec fn parse_bool(b: Seq<u8>, i: nat) -> Option<(bool, nat)> {
    match parse_u8(b, i) {
        Some((v, j)) => Some((v != 0, j)),
        None => None,
    }
}

/// The text at `i`: its length, then its bytes.
pub open spec fn parse_str(b: Seq<u8>, i: nat) -> Option<(Seq<char>, nat)> {
    match parse_u32(b, i) {
        Some((n, j)) => if j + n <= b.len() {
            Some((lossy_text(b.subrange(j as int, j + n)), j + n as nat))
        } else {
            None
        },
        None => None,
    }
}

/// The manifest file at `i`.
pub open spec fn parse_file(b: Seq<u8>, i: nat) -> Option<(FileModel, nat)> {
    match parse_str(b, i) {
        Some((rel, j)) => match parse_u64(b, j) {
            Some((size, k)) => match parse_u32(b, k) {
                Some((mtime, l)) => Some((FileModel { rel, size, mtime }, l)),
                None => None,
            },
            None => None,
        },
        None => None,
    }
}

/// The manifest symlink at `i`.
pub open spec fn parse_link(b: Seq<u8>, i: nat) -> Option<(LinkModel, nat)> {
    match parse_str(b, i) {
        Some((rel, j)) => match parse_str(b, j) {
            Some((target, k)) => Some((LinkModel { rel, target }, k)),
            None => None,
        },
        None => None,
    }
}

/// How one element is read off a payload.
pub type Parser<T> = spec_fn(Seq<u8>, nat) -> Option<(T, nat)>;

/// `n` elements, one after the other, from `i` on.
pub open spec fn parse_items<T>(item: Parser<T>, b: Seq<u8>, i: nat, n: nat) -> Option<
    (Seq<T>, nat),
>
    decreases n,
{
    if n == 0 {
        Some((Seq::empty(), i))
    } else {
        match parse_items(item, b, i, (n - 1) as nat) {
            Some((v, j)) => match item(b, j) {
                Some((x, k)) => Some((v.push(x), k)),
                None => None,
            },
            None => None,
        }
    }
}

/// The sequence at `i`: its count, then its elements.
pub open spec fn parse_vec<T>(item: Parser<T>, b: Seq<u8>, i: nat) -> Option<(Seq<T>, nat)> {
    match parse_u32(b, i) {
        Some((n, j)) => parse_items(item, b, j, n as nat),
        None => None,
    }
}

/// [`parse_str`] as a function value.
pub open spec fn str_parser() -> Parser<Seq<char>> {
    |b: Seq<u8>, i: nat| parse_str(b, i)
}

/// [`parse_file`] as a function value.
pub open spec fn file_parser() -> Parser<FileModel> {
    |b: Seq<u8>, i: nat| parse_file(b, i)
}

/// [`parse_link`] as a function value.
pub open spec fn link_parser() -> Parser<LinkModel> {
    |b: Seq<u8>, i: nat| parse_link(b, i)
}

/// The fields of a `Plan` from `i` on.
pub open spec fn parse_plan(b: Seq<u8>, i: nat) -> Option<(RequestModel, nat)> {
    match parse_bool(b, i) {
        Some((include_hidden, j)) => match parse_bool(b, j) {
            Some((prune, k)) => match parse_vec(str_parser(), b, k) {
                Some((excludes, l)) => match parse_vec(file_parser(), b, l) {
                    Some((files, m)) => match parse_vec(link_parser(), b, m) {
                        Some((links, n)) => Some(
                            (
                                RequestModel::Plan {
                                    include_hidden,
                                    prune,
                                    excludes,
                                    files,
                                    links,
                                },
                                n,
                            ),
                        ),
                        None => None,
                    },
                    None => None,
                },
                None => None,
            },
            None => None,
        },
        None => None,
    }
}

/// The request that a payload starts with, and the position behind it.
pub open spec fn parse_request(b: Seq<u8>) -> Option<(RequestModel, nat)> {
    match parse_u8(b, 0) {
        Some((tag, i)) => if tag == T_HELLO {
            match parse_u32(b, i) {
                Some((proto, j)) => Some((RequestModel::Hello { proto }, j)),
                None => None,
            }
        } else if tag == T_PLAN {
            parse_plan(b, i)
        } else if tag == T_BYE {
            Some((RequestModel::Bye, i))
        } else {
            None
        },
        None => None,
    }
}

/// The fields of a `Worklist` from `i` on.
pub open spec fn parse_worklist(b: Seq<u8>, i: nat) -> Option<(ResponseModel, nat)> {
    match parse_vec(str_parser(), b, i) {
        Some((uploads, j)) => match parse_u32(b, j) {
            Some((created_dirs, k)) => match parse_u32(b, k) {
                Some((pruned, l)) => match parse_u32(b, l) {
                    Some((symlinks, m)) => Some(
                        (ResponseModel::Worklist { uploads, created_dirs, pruned, symlinks }, m),
                    ),
                    None => None,
                },
                None => None,
            },
            None => None,
        },
        None => None,
    }
}

/// The response that a payload starts with, and the position behind it.
pub open spec fn parse_response(b: Seq<u8>) -> Option<(ResponseModel, nat)> {
    match parse_u8(b, 0) {
        Some((tag, i)) => if tag == R_HELLO_OK {
            match parse_u32(b, i) {
                Some((agent, j)) => match parse_u32(b, j) {
                    Some((proto, k)) => Some((ResponseModel::HelloOk { agent, proto }, k)),
                    None => None,
                },
                None => None,
            }
        } else if tag == R_WORKLIST {
            parse_worklist(b, i)
        } else if tag == R_ERROR {
            match parse_str(b, i) {
                Some((message, j)) => Some((ResponseModel::Error { message }, j)),
                None => None,
            }
        } else {
            None
        },
        None => None,
    }
}

/// The request that a payload carries. Bytes behind the last field are not looked at.
pub open spec fn request_of(b: Seq<u8>) -> Option<RequestModel> {
    match parse_request(b) {
        Some((r, _)) => Some(r),
        None => None,
    }
}

/// The response that a payload carries. Bytes behind the last field are not looked at.
pub open spec fn response_of(b: Seq<u8>) -> Option<ResponseModel> {
    match parse_response(b) {
        Some((r, _)) => Some(r),
        None => None,
    }
}

/// A cursor over a frame body, decoding primitives and bounds-checking as it goes. Any short
/// read returns `None`, which callers turn into a protocol error rather than a panic.
struct Reader<'a> {
    b: &'a [u8],
    i: usize,
}

/// Whether a read that gave `res` and left the cursor at `end` did what `parsed` says.
spec fn reads<T>(parsed: Option<(T, nat)>, res: Option<T>, end: usize) -> bool {
    match parsed {
        Some((v, j)) => res == Some(v) && end as nat == j,
        None => res is None,
    }
}

/// The same, for a result that is known by its deep view.
spec fn reads_deep<T: DeepView>(parsed: Option<(T::V, nat)>, res: Option<T>, end: usize) -> bool {
    match parsed {
        Some((v, j)) => res is Some && res->0.deep_view() == v && end as nat == j,
        None => res is None,
    }
}

impl<'a> Reader<'a> {
    spec fn wf(&self) -> bool {
        self.i <= self.b@.len()
    }

    fn new(b: &'a [u8]) -> (r: Self)
        ensures
            r.wf(),
            r.b@ == b@,
            r.i == 0,
    {
        Reader { b, i: 0 }
    }

    fn take(&mut self, n: usize) -> (res: Option<&'a [u8]>)
        requires
            old(self).wf(),
        ensures
            final(self).wf(),
            final(self).b == old(self).b,
            old(self).i + n <= old(self).b@.len() ==> {
                &&& res is Some
                &&& res->0@ == old(self).b@.subrange(old(self).i as int, old(self).i + n)
                &&& final(self).i == old(self).i + n
            },
            old(self).i + n > old(self).b@.len() ==> res is None && final(self).i == old(self).i,
    {
        if n > self.b.len() - self.i {
            return None;
        }
        let end: usize = self.i + n;
        let slice = slice_subrange(self.b, self.i, end);
        self.i = end;
        Some(slice)
    }

    fn u8(&mut self) -> (res: Option<u8>)
        requires
            old(self).wf(),
        ensures
            final(self).wf(),
            final(self).b == old(self).b,
            reads(parse_u8(old(self).b@, old(self).i as nat), res, final(self).i),
    {
        match self.take(1) {
            Some(s) => Some(s[0]),
            None => None,
        }
    }

    fn u32(&mut self) -> (res: Option<u32>)
        requires
            old(self).wf(),
        ensures
            final(self).wf(),
            final(self).b == old(self).b,
            reads(parse_u32(old(self).b@, old(self).i as nat), res, final(self).i),
    {
        match self.take(4) {
            Some(s) => {
                assert(s@.subrange(0, 4) =~= s@);
                Some(get_u32(s, 0))
            },
            None => None,
        }
    }

    fn u64(&mut self) -> (res: Option<u64>)
        requires
            old(self).wf(),
        ensures
            final(self).wf(),
            final(self).b == old(self).b,
            reads(parse_u64(old(self).b@, old(self).i as nat), res, final(self).i),
    {
        match self.take(8) {
            Some(s) => {
                assert(s@.subrange(0, 8) =~= s@);
                Some(get_u64(s, 0))
            },
            None => None,
        }
    }

    fn boolean(&mut self) -> (res: Option<bool>)
        requires
            old(self).wf(),
        ensures
            final(self).wf(),
            final(self).b == old(self).b,
            reads(parse_bool(old(self).b@, old(self).i as nat), res, final(self).i),
    {
        match self.u8() {
            Some(v) => Some(v != 0),
            None => None,
        }
    }

    fn string(&mut self) -> (res: Option<String>)
        requires
            old(self).wf(),
        ensures
            final(self).wf(),
            final(self).b == old(self).b,
            reads_deep(parse_str(old(self).b@, old(self).i as nat), res, final(self).i),
    {
        let n: usize = self.u32()? as usize;
        let bytes = self.take(n)?;
        // Paths are bytes; lossy keeps us robust to the rare non-UTF-8 name.
        Some(from_utf8_lossy(bytes))
    }

    fn file(&mut self) -> (res: Option<FileEntry>)
        requires
            old(self).wf(),
        ensures
            final(self).wf(),
            final(self).b == old(self).b,
            reads_deep(parse_file(old(self).b@, old(self).i as nat), res, final(self).i),
    {
        let rel = self.string()?;
        let size: u64 = self.u64()?;
        let mtime: u32 = self.u32()?;
        Some(FileEntry { rel, size, mtime })
    }

    fn link(&mut self) -> (res: Option<LinkEntry>)
        requires
            old(self).wf(),
        ensures
            final(self).wf(),
            final(self).b == old(self).b,
            reads_deep(parse_link(old(self).b@, old(self).i as nat), res, final(self).i),
    {
        let rel = self.string()?;
        let target = self.string()?;
        Some(LinkEntry { rel, target })
    }

    /// Reads a list of strings. Room for at most `reserve` of them is set aside beforehand, so
    /// that a corrupt count does not trigger a huge allocation.
    fn strings(&mut self, reserve: usize) -> (res: Option<Vec<String>>)
        requires
            old(self).wf(),
        ensures
            final(self).wf(),
            final(self).b == old(self).b,
            reads_deep(parse_vec(str_parser(), old(self).b@, old(self).i as nat), res, final(self).i),
    {
        let n: usize = self.u32()? as usize;
        let ghost start = self.i as nat;
        let ghost body = self.b@;
        let mut out: Vec<String> = Vec::with_capacity(if n < reserve { n } else { reserve });
        let mut k: usize = 0;
        while k < n
            invariant
                k <= n,
                self.wf(),
                self.b == old(self).b,
                self.b@ == body,
                parse_items(str_parser(), body, start, k as nat) == Some(
                    (out.deep_view(), self.i as nat),
                ),
                parse_vec(str_parser(), body, old(self).i as nat) == parse_items(
                    str_parser(),
                    body,
                    start,
                    n as nat,
                ),
            decreases n - k,
        {
            proof {
                lemma_items_fail_early(str_parser(), body, start, (k + 1) as nat, n as nat);
            }
            let ghost before = out.deep_view();
            let item = self.string()?;
            out.push(item);
            k += 1;
            assert(out.deep_view() =~= before.push(item.deep_view()));
        }
        Some(out)
    }

    fn files(&mut self) -> (res: Option<Vec<FileEntry>>)
        requires
            old(self).wf(),
        ensures
            final(self).wf(),
            final(self).b == old(self).b,
            reads_deep(parse_vec(file_parser(), old(self).b@, old(self).i as nat), res, final(self).i),
    {
        let n: usize = self.u32()? as usize;
        let ghost start = self.i as nat;
        let ghost body = self.b@;
        let mut out: Vec<FileEntry> = Vec::with_capacity(if n < 0x1_0000 { n } else { 0x1_0000 });
        let mut k: usize = 0;
        while k < n
            invariant
                k <= n,
                self.wf(),
                self.b == old(self).b,
                self.b@ == body,
                parse_items(file_parser(), body, start, k as nat) == Some(
                    (out.deep_view(), self.i as nat),
                ),
                parse_vec(file_parser(), body, old(self).i as nat) == parse_items(
                    file_parser(),
                    body,
                    start,
                    n as nat,
                ),
            decreases n - k,
        {
            proof {
                lemma_items_fail_early(file_parser(), body, start, (k + 1) as nat, n as nat);
            }
            let ghost before = out.deep_view();
            let item = self.file()?;
            out.push(item);
            k += 1;
            assert(out.deep_view() =~= before.push(item.deep_view()));
        }
        Some(out)
    }

    fn links(&mut self) -> (res: Option<Vec<LinkEntry>>)
        requires
            old(self).wf(),
        ensures
            final(self).wf(),
            final(self).b == old(self).b,
            reads_deep(parse_vec(link_parser(), old(self).b@, old(self).i as nat), res, final(self).i),
    {
        let n: usize = self.u32()? as usize;
        let ghost start = self.i as nat;
        let ghost body = self.b@;
        let mut out: Vec<LinkEntry> = Vec::with_capacity(if n < 0x1_0000 { n } else { 0x1_0000 });
        let mut k: usize = 0;
        while k < n
            invariant
                k <= n,
                self.wf(),
                self.b == old(self).b,
                self.b@ == body,
                parse_items(link_parser(), body, start, k as nat) == Some(
                    (out.deep_view(), self.i as nat),
                ),
                parse_vec(link_parser(), body, old(self).i as nat) == parse_items(
                    link_parser(),
                    body,
                    start,
                    n as nat,
                ),
            decreases n - k,
        {
            proof {
                lemma_items_fail_early(link_parser(), body, start, (k + 1) as nat, n as nat);
            }
            let ghost before = out.deep_view();
            let item = self.link()?;
            out.push(item);
            k += 1;
            assert(out.deep_view() =~= before.push(item.deep_view()));
        }
        Some(out)
    }
}

/// Once one of the first `k` elements cannot be read, `n` elements cannot either.
proof fn lemma_items_fail_early<T>(item: Parser<T>, b: Seq<u8>, i: nat, k: nat, n: nat)
    requires
        k <= n,
    ensures
        parse_items(item, b, i, k) is None ==> parse_items(item, b, i, n) is None,
    decreases n,
{
    if k < n {
        lemma_items_fail_early(item, b, i, k, (n - 1) as nat);
    }
}

// --- framing -------------------------------------------------------------------------------

/// Why a frame could not be read.
#[derive(Debug, Clone, Copy, PartialEq, Eq)]
pub enum FrameError {
    /// The input ends before the frame does.
    UnexpectedEof,
}

/// A frame: the length of its body, then the body.
pub open spec fn frame_bytes(body: Seq<u8>) -> Seq<u8> {
    count_bytes(body.len()) + body
}

/// The body length that a frame's first four bytes announce.
pub open spec fn announced_len(input: Seq<u8>) -> nat {
    from_be(input.subrange(0, 4))
}

/// Whether `input` starts with a whole frame.
pub open spec fn has_frame(input: Seq<u8>) -> bool {
    input.len() >= 4 && input.len() >= 4 + announced_len(input)
}

/// The body of the frame that `input` starts with.
pub open spec fn frame_body(input: Seq<u8>) -> Seq<u8> {
    input.subrange(4, 4 + announced_len(input) as int)
}

/// What follows the frame that `input` starts with.
pub open spec fn after_frame(input: Seq<u8>) -> Seq<u8> {
    input.subrange(4 + announced_len(input) as int, input.len() as int)
}

/// Write one length-prefixed frame. Memory takes it all, so this does not fail.
pub fn write_frame(w: &mut Vec<u8>, body: &[u8]) -> (res: Result<(), FrameError>)
    ensures
        res is Ok,
        final(w)@ == old(w)@ + frame_bytes(body@),
{
    put_count(w, body.len());
    put_bytes(w, body);
    assert(w@ =~= old(w)@ + frame_bytes(body@));
    Ok(())
}

/// The body length that a frame header announces.
pub fn frame_len(header: [u8; 4]) -> (n: usize)
    ensures
        n as nat == from_be(header@),
{
    let s = header.as_slice();
    assert(s@.subrange(0, 4) =~= header@);
    get_u32(s, 0) as usize
}

/// Read one length-prefixed frame, and step over it. Where the input ends before the frame
/// does, this fails with `UnexpectedEof`, and the input is used up: header and body are read as
/// far as they go.
pub fn read_frame(r: &mut &[u8]) -> (res: Result<Vec<u8>, FrameError>)
    ensures
        res is Ok <==> has_frame(old(r)@),
        res matches Ok(body) ==> body@ == frame_body(old(r)@) && final(r)@ == after_frame(old(r)@),
        res matches Err(e) ==> e == FrameError::UnexpectedEof && final(r)@ == Seq::<u8>::empty(),
{
    let input: &[u8] = *r;
    if input.len() < 4 {
        *r = slice_subrange(input, input.len(), input.len());
        return Err(FrameError::UnexpectedEof);
    }
    let n: usize = get_u32(input, 0) as usize;
    if input.len() - 4 < n {
        *r = slice_subrange(input, input.len(), input.len());
        return Err(FrameError::UnexpectedEof);
    }
    let body = slice_to_vec(slice_subrange(input, 4, 4 + n));
    *r = slice_subrange(input, 4 + n, input.len());
    Ok(body)
}

impl Request {
    /// The payload that carries this request.
    pub fn encode(&self) -> (out: Vec<u8>)
        ensures
            out@ == request_bytes(self.deep_view()),
    {
        let mut out: Vec<u8> = Vec::new();
        match self {
            Request::Hello { proto } => {
                out.push(T_HELLO);
                put_u32(&mut out, *proto);
            },
            Request::Plan { include_hidden, prune, excludes, files, links } => {
                out.push(T_PLAN);
                put_bool(&mut out, *include_hidden);
                put_bool(&mut out, *prune);
                put_strs(&mut out, excludes);
                put_files(&mut out, files);
                put_links(&mut out, links);
            },
            Request::Bye => out.push(T_BYE),
        }
        assert(out@ =~= request_bytes(self.deep_view()));
        out
    }

    /// The request that `body` carries, or `None` where it is malformed or cut short.
    pub fn decode(body: &[u8]) -> (res: Option<Request>)
        ensures
            res is Some <==> request_of(body@) is Some,
            res is Some ==> Some(res->0.deep_view()) == request_of(body@),
    {
        let mut r = Reader::new(body);
        match r.u8()? {
            T_HELLO => Some(Request::Hello { proto: r.u32()? }),
            T_PLAN => {
                let include_hidden = r.boolean()?;
                let prune = r.boolean()?;
                let excludes = r.strings(1024)?;
                let files = r.files()?;
                let links = r.links()?;
                Some(Request::Plan { include_hidden, prune, excludes, files, links })
            },
            T_BYE => Some(Request::Bye),
            _ => None,
        }
    }
}

impl Response {
    /// The payload that carries this response.
    pub fn encode(&self) -> (out: Vec<u8>)
        ensures
            out@ == response_bytes(self.deep_view()),
    {
        let mut out: Vec<u8> = Vec::new();
        match self {
            Response::HelloOk { agent, proto } => {
                out.push(R_HELLO_OK);
                put_u32(&mut out, *agent);
                put_u32(&mut out, *proto);
            },
            Response::Worklist { uploads, created_dirs, pruned, symlinks } => {
                out.push(R_WORKLIST);
                put_strs(&mut out, uploads);
                put_u32(&mut out, *created_dirs);
                put_u32(&mut out, *pruned);
                put_u32(&mut out, *symlinks);
            },
            Response::Error { message } => {
                out.push(R_ERROR);
                put_str(&mut out, message.as_str());
            },
        }
        assert(out@ =~= response_bytes(self.deep_view()));
        out
    }

    /// The response that `body` carries, or `None` where it is malformed or cut short.
    pub fn decode(body: &[u8]) -> (res: Option<Response>)
        ensures
            res is Some <==> response_of(body@) is Some,
            res is Some ==> Some(res->0.deep_view()) == response_of(body@),
    {
        let mut r = Reader::new(body);
        match r.u8()? {
            R_HELLO_OK => {
                let agent: u32 = r.u32()?;
                let proto: u32 = r.u32()?;
                Some(Response::HelloOk { agent, proto })
            },
            R_WORKLIST => {
                let uploads = r.strings(0x1_0000)?;
                let created_dirs: u32 = r.u32()?;
                let pruned: u32 = r.u32()?;
                let symlinks: u32 = r.u32()?;
                Some(Response::Worklist { uploads, created_dirs, pruned, symlinks })
            },
            R_ERROR => Some(Response::Error { message: r.string()? }),
            _ => None,
        }
    }
}

} // verus!
