//! The portable single-executable build's bundled runtime.
//!
//! The harness runtime and a Node interpreter are packed into the binary as
//! one deflate stream of records, each a `u32` name length, the name, a `u64`
//! data length and the data, all lengths little-endian. They are unpacked
//! once, on first run, into a per-user cache directory.

use vstd::prelude::*;
use flate2::read::DeflateDecoder;
use std::string::FromUtf8Error;
use crate::paths::{join_path, joined_path, Platform};
use crate::text::{chars_of, decimal, find, find_in, push_decimal};

verus! {

#[verifier::external_type_specification]
#[verifier::external_body]
#[verifier::reject_recursive_types(R)]
pub struct ExDeflateDecoder<R>(DeflateDecoder<R>);

#[verifier::external_type_specification]
#[verifier::external_body]
pub struct ExFromUtf8Error(FromUtf8Error);

pub assume_specification[ String::from_utf8 ](vec: Vec<u8>) -> (r: Result<String, FromUtf8Error>)
    ensures
        r is Ok == vstd::utf8::valid_utf8(vec@),
        r matches Ok(s) ==> s@ == vstd::utf8::decode_utf8(vec@),
;

/// Written once the unpack finished, so an interrupted run is never mistaken
/// for a usable runtime.
pub const MARKER: &'static str = ".unpacked";

/// How many bytes of a file are copied at a time: the payload holds a Node
/// binary far too large to hold in memory whole.
pub const COPY_CHUNK: usize = 65536;

/// How often, in files, progress is reported while unpacking.
pub const PROGRESS_EVERY: usize = 250;

// ---------------------------------------------------------------------------
// Record fields

/// The number the bytes `b` stand for, least significant byte first.
pub open spec fn le_value(b: Seq<u8>) -> nat
    decreases b.len(),
{
    if b.len() == 0 {
        0
    } else {
        b[0] as nat + 256 * le_value(b.drop_first())
    }
}

pub open spec fn pow256(n: nat) -> nat
    decreases n,
{
    if n == 0 {
        1
    } else {
        256 * pow256((n - 1) as nat)
    }
}

/// The little-endian number in `b[lo..hi]`.
fn le_number(b: &Vec<u8>, lo: usize, hi: usize) -> (v: u64)
    requires
        lo <= hi <= b@.len(),
        hi - lo <= 8,
    ensures
        v == le_value(b@.subrange(lo as int, hi as int)),
        v < pow256((hi - lo) as nat),
{
    let mut v: u64 = 0;
    let mut i = hi;
    proof {
        assert(b@.subrange(hi as int, hi as int) =~= Seq::<u8>::empty());
        assert(pow256(0) == 1);
    }
    while i > lo
        invariant
            lo <= i <= hi <= b@.len(),
            hi - lo <= 8,
            v == le_value(b@.subrange(i as int, hi as int)),
            v < pow256((hi - i) as nat),
        decreases i - lo,
    {
        let ghost rest = b@.subrange(i as int, hi as int);
        i = i - 1;
        proof {
            let s = b@.subrange(i as int, hi as int);
            assert(s.drop_first() =~= rest);
            assert(s[0] == b@[i as int]);
            assert(pow256((hi - i) as nat) == 256 * pow256((hi - i - 1) as nat));
            assert(pow256(8) == 0x1_0000_0000_0000_0000) by {
                reveal_with_fuel(pow256, 9);
            }
            lemma_pow256_mono((hi - i) as nat, 8);
            assert(v * 256 + b@[i as int] < pow256((hi - i) as nat)) by (nonlinear_arith)
                requires
                    v < pow256((hi - i - 1) as nat),
                    pow256((hi - i) as nat) == 256 * pow256((hi - i - 1) as nat),
                    b@[i as int] < 256,
            ;
        }
        v = v * 256 + b[i] as u64;
    }
    v
}

proof fn lemma_pow256_mono(a: nat, b: nat)
    requires
        a <= b,
    ensures
        pow256(a) <= pow256(b),
    decreases b,
{
    if a < b {
        lemma_pow256_mono(a, (b - 1) as nat);
    }
}

/// The name of a record, from its bytes: they must be UTF-8.
pub fn entry_name(bytes: Vec<u8>) -> (r: Result<String, String>)
    ensures
        vstd::utf8::valid_utf8(bytes@) ==> (r matches Ok(s) && s@ == vstd::utf8::decode_utf8(bytes@)),
        !vstd::utf8::valid_utf8(bytes@) ==> (r matches Err(m) && m@ == "the bundled runtime is corrupt"@),
{
    match String::from_utf8(bytes) {
        Ok(s) => Ok(s),
        Err(_) => Err(String::from_str("the bundled runtime is corrupt")),
    }
}

// ---------------------------------------------------------------------------
// Names

/// A name that cannot escape the destination by its characters: not empty,
/// not starting with `/`, and holding no `..`.
pub open spec fn plainly_relative(name: Seq<char>) -> bool {
    &&& name.len() > 0
    &&& name[0] != '/'
    &&& find(name, seq!['.', '.']) is None
}

/// A name that some platform could read as rooted or absolute: one that
/// starts with a separator (`/`, or `\\` on Windows) or with a Windows drive
/// prefix, an ASCII letter and `:` such as `C:`.
pub open spec fn could_be_absolute(name: Seq<char>) -> bool {
    ||| (name.len() > 0 && (name[0] == '/' || name[0] == '\\'))
    ||| (name.len() >= 2 && crate::text::is_ascii_alphabetic(name[0]) && name[1] == ':')
}

/// Whether a record may be written under its name: it must be plainly
/// relative (not empty, no leading `/`, no `..`) and must not be a name any
/// platform could read as rooted (no leading `\\`, no drive prefix).
pub open spec fn safe_name(name: Seq<char>) -> bool {
    plainly_relative(name) && !could_be_absolute(name)
}

/// Refuse names that would escape the destination directory.
pub fn is_safe(name: &str) -> (r: bool)
    ensures
        r == safe_name(name@),
{
    let cs = chars_of(name);
    if cs.len() == 0 || cs[0] == '/' || cs[0] == '\\' {
        return false;
    }
    let dots = vec!['.', '.'];
    assert(dots@ =~= seq!['.', '.']);
    if find_in(&cs, &dots).is_some() {
        return false;
    }
    if cs.len() >= 2 && (('a' <= cs[0] && cs[0] <= 'z') || ('A' <= cs[0] && cs[0] <= 'Z'))
        && cs[1] == ':' {
        return false;
    }
    true
}

// ---------------------------------------------------------------------------
// Reading the stream

/// A failed read of the decompressed stream: whether it ended before the
/// bytes wanted, and what the error said.
pub struct ReadFailure {
    pub end_of_data: bool,
    pub message: String,
}

/// The bytes that `payload` decompresses to as a raw deflate stream, when it
/// starts with a complete, valid one; nothing otherwise. A function of the
/// payload alone.
pub uninterp spec fn inflated(payload: Seq<u8>) -> Option<Seq<u8>>;

/// What a decoder over the payload will still yield: the rest of the
/// decompressed stream, when the payload is a complete, valid deflate
/// stream; nothing otherwise.
pub uninterp spec fn decoder_rest(d: DeflateDecoder<&'static [u8]>) -> Option<Seq<u8>>;

/// `flate2::read::DeflateDecoder::new` over the payload. The contract claims
/// that the new decoder will yield the whole decompressed payload.
#[verifier::external_body]
fn open_payload(payload: &'static [u8]) -> (d: DeflateDecoder<&'static [u8]>)
    ensures
        decoder_rest(d) == inflated(payload@),
{
    DeflateDecoder::new(payload)
}

/// `Read::read_exact` on the decoder, into a new buffer of `n` bytes. A
/// successful read yields `n` bytes. Of a decoder over a complete, valid
/// stream the contract claims, as flate2's source and `read_exact`'s
/// documentation show, that it yields exactly the next `n` bytes of the
/// stream when that many remain, and otherwise fails with
/// `UnexpectedEof`, having taken what remained. Of a corrupt or
/// truncated stream it claims nothing more; the error's text is left unsaid.
#[verifier::external_body]
fn read_bytes(d: &mut DeflateDecoder<&'static [u8]>, n: usize) -> (r: Result<Vec<u8>, ReadFailure>)
    ensures
        r matches Ok(v) ==> v@.len() == n,
        decoder_rest(*old(d)) matches Some(rest) ==> if n <= rest.len() {
            &&& r matches Ok(v) && v@ == rest.take(n as int)
            &&& decoder_rest(*final(d)) == Some(rest.skip(n as int))
        } else {
            &&& r matches Err(f) && f.end_of_data
            &&& decoder_rest(*final(d)) == Some(Seq::<u8>::empty())
        },
{
    let mut buffer = vec![0u8; n];
    match std::io::Read::read_exact(d, &mut buffer) {
        Ok(()) => Ok(buffer),
        Err(e) => Err(ReadFailure {
            end_of_data: e.kind() == std::io::ErrorKind::UnexpectedEof,
            message: format!("{e}"),
        }),
    }
}

/// One record: a file name and the number of data bytes that follow it.
pub struct Entry {
    pub name: String,
    pub size: u64,
}

impl Entry {
    /// Whether the file sits directly in the runtime directory (the
    /// interpreter does, and is made executable).
    pub fn at_top_level(&self) -> (r: bool)
        ensures
            r == !self.name@.contains('/'),
    {
        let cs = chars_of(self.name.as_str());
        let mut i: usize = 0;
        while i < cs.len()
            invariant
                cs@ == self.name@,
                i <= cs@.len(),
                forall|k: int| 0 <= k < i ==> cs@[k] != '/',
            decreases cs@.len() - i,
        {
            if cs[i] == '/' {
                return false;
            }
            i = i + 1;
        }
        true
    }
}

pub open spec fn read_failed_text(detail: Seq<char>) -> Seq<char> {
    "reading the bundled runtime failed: "@ + detail
}

pub open spec fn unsafe_path_text(name: Seq<char>) -> Seq<char> {
    "the bundled runtime contains an unsafe path: "@ + name
}

/// The errors unpacking can stop with.
pub open spec fn unpack_error(m: Seq<char>) -> bool {
    ||| exists|detail: Seq<char>| m == #[trigger] read_failed_text(detail)
    ||| m == "the bundled runtime is corrupt"@
    ||| exists|name: Seq<char>| m == #[trigger] unsafe_path_text(name)
}

fn read_failed(f: ReadFailure) -> (m: String)
    ensures
        m@ == read_failed_text(f.message@),
{
    let mut m = String::from_str("reading the bundled runtime failed: ");
    m.append(f.message.as_str());
    m
}

pub open spec fn unpacked_text(files: nat) -> Seq<char> {
    "unpacked "@ + decimal(files) + " files"@
}

fn unpacked_message(files: usize) -> (m: String)
    ensures
        m@ == unpacked_text(files as nat),
{
    let mut m = String::from_str("unpacked ");
    push_decimal(&mut m, files as u64);
    m.append(" files");
    m
}

/// A copy of `v`.
fn copy_bytes(v: &Vec<u8>) -> (r: Vec<u8>)
    ensures
        r@ == v@,
{
    let mut r: Vec<u8> = Vec::new();
    let mut i: usize = 0;
    while i < v.len()
        invariant
            i <= v@.len(),
            r@ == v@.take(i as int),
        decreases v@.len() - i,
    {
        r.push(v[i]);
        i = i + 1;
        assert(r@ =~= v@.take(i as int));
    }
    assert(v@.take(v@.len() as int) =~= v@);
    r
}

/// What a record with header bytes `header`, name bytes `name` and size
/// bytes `size` gives: its name and data size, or why it is refused. The
/// lengths must fit the record format (four header bytes giving the name's
/// length, eight size bytes) and the name must be UTF-8, else the record is
/// corrupt; a name that is not safe is refused by name.
pub open spec fn record_of(header: Seq<u8>, name: Seq<u8>, size: Seq<u8>) -> Result<
    (Seq<char>, u64),
    Seq<char>,
> {
    if header.len() != 4 || size.len() != 8 || name.len() != le_value(header)
        || !vstd::utf8::valid_utf8(name) {
        Err("the bundled runtime is corrupt"@)
    } else if !safe_name(vstd::utf8::decode_utf8(name)) {
        Err(unsafe_path_text(vstd::utf8::decode_utf8(name)))
    } else {
        Ok((vstd::utf8::decode_utf8(name), le_value(size) as u64))
    }
}

/// Read one record's header fields into an entry, refusing a corrupt record
/// or an unsafe name.
pub fn parse_record(header: &Vec<u8>, name: &Vec<u8>, size: &Vec<u8>) -> (r: Result<Entry, String>)
    ensures
        match record_of(header@, name@, size@) {
            Ok((n, z)) => r matches Ok(e) && e.name@ == n && e.size == z,
            Err(m) => r matches Err(x) && x@ == m,
        },
{
    if header.len() != 4 || size.len() != 8 {
        return Err(String::from_str("the bundled runtime is corrupt"));
    }
    let name_len = le_number(header, 0, 4);
    proof {
        assert(header@.subrange(0, 4) =~= header@);
        assert(size@.subrange(0, 8) =~= size@);
    }
    if name.len() as u64 != name_len {
        return Err(String::from_str("the bundled runtime is corrupt"));
    }
    let text = entry_name(copy_bytes(name))?;
    if !is_safe(text.as_str()) {
        let mut m = String::from_str("the bundled runtime contains an unsafe path: ");
        m.append(text.as_str());
        return Err(m);
    }
    let z = le_number(size, 0, 8);
    Ok(Entry { name: text, size: z })
}

/// How many bytes the next chunk of a record with `pending` bytes left holds.
pub open spec fn chunk_len(pending: u64) -> int {
    if pending < COPY_CHUNK {
        pending as int
    } else {
        COPY_CHUNK as int
    }
}

/// What reading the next record from the rest `s` of the stream comes to.
pub enum RecordRead {
    /// Fewer than four bytes remain: there is no further record.
    End,
    /// A record with this name and data size, whose header takes this many bytes.
    Record(Seq<char>, u64, nat),
    /// The stream ends inside the record's header.
    ReadFailed,
    /// The record is refused with this message, after this many bytes.
    Rejected(Seq<char>, nat),
}

/// The next record of the stream `s`: the name's length, the name (checked
/// to be UTF-8 as soon as it is read), the size, then the safety check.
pub open spec fn first_record(s: Seq<u8>) -> RecordRead {
    if s.len() < 4 {
        RecordRead::End
    } else {
        let n: int = le_value(s.take(4)) as int;
        if s.len() < 4 + n {
            RecordRead::ReadFailed
        } else if !vstd::utf8::valid_utf8(s.subrange(4, 4 + n)) {
            RecordRead::Rejected("the bundled runtime is corrupt"@, (4 + n) as nat)
        } else if s.len() < 12 + n {
            RecordRead::ReadFailed
        } else {
            match record_of(s.take(4), s.subrange(4, 4 + n), s.subrange(4 + n, 12 + n)) {
                Ok((name, size)) => RecordRead::Record(name, size, (12 + n) as nat),
                Err(m) => RecordRead::Rejected(m, (12 + n) as nat),
            }
        }
    }
}

/// Where the current record's data stands: the bytes not yet read, and (for
/// the proofs) how many were read and how many the record holds.
struct Record {
    pending: u64,
    taken: Ghost<nat>,
    size: Ghost<nat>,
}

impl Record {
    /// The bytes read of a record and those still to read make up its size.
    #[verifier::type_invariant]
    spec fn accounts_for_every_byte(&self) -> bool {
        self.taken@ + self.pending == self.size@
    }
}

/// The payload being unpacked: the decompressed stream, the state of the
/// current record's data, and how many files are done.
pub struct Unpacker {
    archive: DeflateDecoder<&'static [u8]>,
    record: Record,
    files: usize,
}

impl Unpacker {
    pub closed spec fn pending_bytes(&self) -> u64 {
        self.record.pending
    }

    /// The size of the current record's data.
    pub closed spec fn record_size(&self) -> nat {
        self.record.size@
    }

    /// How many of the current record's data bytes have been handed out.
    pub closed spec fn bytes_taken(&self) -> nat {
        self.record.taken@
    }

    pub closed spec fn files_done(&self) -> usize {
        self.files
    }

    /// The rest of the decompressed stream, when the payload is a complete,
    /// valid deflate stream.
    pub closed spec fn rest(&self) -> Option<Seq<u8>> {
        decoder_rest(self.archive)
    }

    /// Start reading `payload`.
    pub fn new(payload: &'static [u8]) -> (u: Self)
        ensures
            u.pending_bytes() == 0,
            u.files_done() == 0,
            u.rest() == inflated(payload@),
    {
        Unpacker {
            archive: open_payload(payload),
            record: Record { pending: 0, taken: Ghost(0), size: Ghost(0) },
            files: 0,
        }
    }

    /// The data bytes of the current record not yet read.
    pub fn pending(&self) -> (r: u64)
        ensures
            r == self.pending_bytes(),
    {
        self.record.pending
    }

    /// The next record, read from the stream, or nothing once fewer than four
    /// bytes remain where a record would start. A record whose name is not
    /// UTF-8 or is not safe is refused, and a stream that ends inside a
    /// record's header is an error.
    pub fn next_entry(&mut self) -> (r: Result<Option<Entry>, String>)
        requires
            old(self).pending_bytes() == 0,
        ensures
            final(self).files_done() == old(self).files_done(),
            r matches Ok(Some(e)) ==> {
                &&& safe_name(e.name@)
                &&& final(self).pending_bytes() == e.size
                &&& final(self).record_size() == e.size
                &&& final(self).bytes_taken() == 0
            },
            r matches Ok(None) ==> final(self).pending_bytes() == 0,
            r matches Err(m) ==> unpack_error(m@),
            old(self).rest() matches Some(s) ==> match first_record(s) {
                RecordRead::End => r matches Ok(None) && final(self).rest() == Some(
                    Seq::<u8>::empty(),
                ),
                RecordRead::Record(name, size, used) => {
                    &&& r matches Ok(Some(e)) && e.name@ == name && e.size == size
                    &&& final(self).rest() == Some(s.skip(used as int))
                },
                RecordRead::ReadFailed => r matches Err(m) && exists|d: Seq<char>|
                    m@ == #[trigger] read_failed_text(d),
                RecordRead::Rejected(m, used) => {
                    &&& r matches Err(x) && x@ == m
                    &&& final(self).rest() == Some(s.skip(used as int))
                },
            },
    {
        let ghost s0 = decoder_rest(self.archive);
        let header = match read_bytes(&mut self.archive, 4) {
            Ok(h) => h,
            Err(f) => {
                if f.end_of_data {
                    return Ok(None);
                }
                return Err(read_failed(f));
            },
        };
        let ghost s1 = decoder_rest(self.archive);
        let name_len_value = le_number(&header, 0, 4);
        proof {
            assert(pow256(4) == 0x1_0000_0000) by {
                reveal_with_fuel(pow256, 5);
            }
            assert(header@.subrange(0, 4) =~= header@);
        }
        let name_len = name_len_value as usize;
        let name_bytes = match read_bytes(&mut self.archive, name_len) {
            Ok(b) => b,
            Err(f) => {
                return Err(read_failed(f));
            },
        };
        let ghost s2 = decoder_rest(self.archive);
        proof {
            if let Some(s) = s0 {
                assert(s.skip(4).take(name_len as int) =~= s.subrange(4, 4 + name_len));
                assert(s.skip(4).skip(name_len as int) =~= s.skip(4 + name_len));
            }
        }
        let checked = entry_name(copy_bytes(&name_bytes));
        if let Err(m) = checked {
            return Err(m);
        }
        let size_bytes = match read_bytes(&mut self.archive, 8) {
            Ok(b) => b,
            Err(f) => {
                return Err(read_failed(f));
            },
        };
        proof {
            if let Some(s) = s0 {
                assert(s.skip(4 + name_len).take(8) =~= s.subrange(4 + name_len, 12 + name_len));
                assert(s.skip(4 + name_len).skip(8) =~= s.skip(12 + name_len));
            }
        }
        let entry = parse_record(&header, &name_bytes, &size_bytes)?;
        self.record = Record {
            pending: entry.size,
            taken: Ghost(0),
            size: Ghost(entry.size as nat),
        };
        Ok(Some(entry))
    }

    /// The next chunk of the current record's data: at most `COPY_CHUNK`
    /// bytes, the next ones of the stream, nothing once the record is
    /// exhausted, by which time the chunks handed out add up to the record's
    /// size. An error carries what the failed read said.
    pub fn next_chunk(&mut self) -> (r: Result<Option<Vec<u8>>, String>)
        ensures
            final(self).files_done() == old(self).files_done(),
            final(self).record_size() == old(self).record_size(),
            old(self).pending_bytes() == 0 ==> (r matches Ok(None)),
            r matches Ok(None) ==> {
                &&& old(self).pending_bytes() == 0
                &&& final(self).pending_bytes() == 0
                &&& final(self).bytes_taken() == final(self).record_size()
                &&& final(self).rest() == old(self).rest()
            },
            r matches Ok(Some(v)) ==> {
                &&& v@.len() == chunk_len(old(self).pending_bytes())
                &&& final(self).pending_bytes() == old(self).pending_bytes() - v@.len()
                &&& final(self).bytes_taken() == old(self).bytes_taken() + v@.len()
            },
            old(self).pending_bytes() > 0 ==> (old(self).rest() matches Some(s) ==> if chunk_len(
                old(self).pending_bytes(),
            ) <= s.len() {
                &&& r matches Ok(Some(v)) && v@ == s.take(chunk_len(old(self).pending_bytes()))
                &&& final(self).rest() == Some(s.skip(chunk_len(old(self).pending_bytes())))
            } else {
                r is Err
            }),
    {
        proof {
            use_type_invariant(&self.record);
        }
        if self.record.pending == 0 {
            return Ok(None);
        }
        let want: usize = if self.record.pending < COPY_CHUNK as u64 {
            self.record.pending as usize
        } else {
            COPY_CHUNK
        };
        match read_bytes(&mut self.archive, want) {
            Ok(bytes) => {
                let ghost taken: nat = (self.record.taken@ + want) as nat;
                self.record = Record {
                    pending: self.record.pending - want as u64,
                    taken: Ghost(taken),
                    size: self.record.size,
                };
                Ok(Some(bytes))
            },
            Err(f) => Err(f.message),
        }
    }

    /// Count a finished file; every `PROGRESS_EVERY` files, the progress line to show.
    pub fn file_done(&mut self) -> (r: Option<String>)
        ensures
            final(self).pending_bytes() == old(self).pending_bytes(),
            final(self).files_done() == (if old(self).files_done() == usize::MAX {
                usize::MAX
            } else {
                (old(self).files_done() + 1) as usize
            }),
            final(self).files_done() % PROGRESS_EVERY == 0 ==> (r matches Some(m) && m@ == unpacked_text(
                final(self).files_done() as nat,
            )),
            final(self).files_done() % PROGRESS_EVERY != 0 ==> r is None,
    {
        self.files = self.files.saturating_add(1);
        if self.files % PROGRESS_EVERY == 0 {
            Some(unpacked_message(self.files))
        } else {
            None
        }
    }

    /// The line reported once the payload is unpacked.
    pub fn summary(&self) -> (m: String)
        ensures
            m@ == unpacked_text(self.files_done() as nat),
    {
        unpacked_message(self.files)
    }
}

// ---------------------------------------------------------------------------
// The bundled interpreter

/// Where the bundled Node interpreter sits in the unpacked runtime:
/// `node.exe` on Windows, `node` elsewhere.
pub open spec fn node_path(runtime: Seq<char>, platform: Platform) -> Seq<char> {
    joined_path(
        platform,
        runtime,
        if platform == Platform::Windows {
            "node.exe"@
        } else {
            "node"@
        },
    )
}

/// The path of the bundled Node interpreter in the unpacked runtime
/// directory `runtime`; it is used when a file is there.
pub fn node(runtime: &str, platform: Platform) -> (r: String)
    ensures
        r@ == node_path(runtime@, platform),
{
    match platform {
        Platform::Windows => join_path(platform, runtime, "node.exe"),
        _ => join_path(platform, runtime, "node"),
    }
}

// ---------------------------------------------------------------------------
// Laws

/// A well-formed record at the head of the stream reads back as itself: its
/// name and size come out as an entry, and what follows the header is the
/// record's data and then the rest of the stream.
pub proof fn lemma_record_reads_back(
    header: Seq<u8>,
    name: Seq<u8>,
    size: Seq<u8>,
    data: Seq<u8>,
    tail: Seq<u8>,
)
    requires
        header.len() == 4,
        le_value(header) == name.len(),
        vstd::utf8::valid_utf8(name),
        safe_name(vstd::utf8::decode_utf8(name)),
        size.len() == 8,
        le_value(size) == data.len(),
    ensures
        ({
            let s = header + name + size + data + tail;
            &&& first_record(s) == RecordRead::Record(
                vstd::utf8::decode_utf8(name),
                data.len() as u64,
                12 + name.len(),
            )
            &&& s.skip(12 + name.len() as int) == data + tail
        }),
{
    let s = header + name + size + data + tail;
    let n = name.len() as int;
    assert(s.take(4) =~= header);
    assert(s.subrange(4, 4 + n) =~= name);
    assert(s.subrange(4 + n, 12 + n) =~= size);
    assert(s.skip(12 + n) =~= data + tail);
    lemma_le_value_below(size);
    assert(pow256(8) == 0x1_0000_0000_0000_0000) by {
        reveal_with_fuel(pow256, 9);
    }
}

/// A record whose name is not safe is refused with the error that names it,
/// before any of its data is read.
pub proof fn lemma_unsafe_record_refused(header: Seq<u8>, name: Seq<u8>, size: Seq<u8>, rest: Seq<u8>)
    requires
        header.len() == 4,
        le_value(header) == name.len(),
        vstd::utf8::valid_utf8(name),
        !safe_name(vstd::utf8::decode_utf8(name)),
        size.len() == 8,
    ensures
        first_record(header + name + size + rest) == RecordRead::Rejected(
            unsafe_path_text(vstd::utf8::decode_utf8(name)),
            12 + name.len(),
        ),
{
    let s = header + name + size + rest;
    let n = name.len() as int;
    assert(s.take(4) =~= header);
    assert(s.subrange(4, 4 + n) =~= name);
    assert(s.subrange(4 + n, 12 + n) =~= size);
}

/// How reading a whole stream of records ends.
pub enum StreamEnd {
    /// Every record was read, and what is left is too short to be one.
    Complete,
    /// A record was refused with this message.
    Refused(Seq<char>),
    /// The stream ended inside a record.
    Broken,
}

/// The records read from the stream `s` one after another, each a name
/// with its data, and how the reading ended. A refused or broken record
/// ends it, and nothing after it is read.
pub open spec fn unpack_stream(s: Seq<u8>) -> (Seq<(Seq<char>, Seq<u8>)>, StreamEnd)
    decreases s.len(),
{
    match first_record(s) {
        RecordRead::End => (Seq::empty(), StreamEnd::Complete),
        RecordRead::Record(name, size, used) => if 0 < used && used + size <= s.len() {
            let data = s.subrange(used as int, used + size);
            let (rest, end) = unpack_stream(s.skip(used + size));
            (seq![(name, data)] + rest, end)
        } else {
            (Seq::empty(), StreamEnd::Broken)
        },
        RecordRead::ReadFailed => (Seq::empty(), StreamEnd::Broken),
        RecordRead::Rejected(m, _) => (Seq::empty(), StreamEnd::Refused(m)),
    }
}

/// The bytes of one record: the name's length, the name, the data's size
/// and the data.
pub struct RecordBytes {
    pub header: Seq<u8>,
    pub name: Seq<u8>,
    pub size: Seq<u8>,
    pub data: Seq<u8>,
}

/// A record whose fields agree, whose name is UTF-8 and safe.
pub open spec fn well_formed(r: RecordBytes) -> bool {
    &&& r.header.len() == 4
    &&& le_value(r.header) == r.name.len()
    &&& vstd::utf8::valid_utf8(r.name)
    &&& safe_name(vstd::utf8::decode_utf8(r.name))
    &&& r.size.len() == 8
    &&& le_value(r.size) == r.data.len()
}

/// The records one after another, as the payload holds them.
pub open spec fn encoded(rs: Seq<RecordBytes>) -> Seq<u8>
    decreases rs.len(),
{
    if rs.len() == 0 {
        Seq::empty()
    } else {
        rs[0].header + rs[0].name + rs[0].size + rs[0].data + encoded(rs.drop_first())
    }
}

/// Each record as it is written: its decoded name and its data.
pub open spec fn written(rs: Seq<RecordBytes>) -> Seq<(Seq<char>, Seq<u8>)> {
    rs.map_values(|r: RecordBytes| (vstd::utf8::decode_utf8(r.name), r.data))
}

/// Reading a stream that holds well-formed records, then `tail`, gives every
/// one of those records in order, then whatever reading `tail` gives.
pub proof fn lemma_stream_reads_back(rs: Seq<RecordBytes>, tail: Seq<u8>)
    requires
        forall|k: int| 0 <= k < rs.len() ==> well_formed(#[trigger] rs[k]),
    ensures
        unpack_stream(encoded(rs) + tail).0 == written(rs) + unpack_stream(tail).0,
        unpack_stream(encoded(rs) + tail).1 == unpack_stream(tail).1,
    decreases rs.len(),
{
    if rs.len() == 0 {
        assert(encoded(rs) + tail =~= tail);
        assert(written(rs) + unpack_stream(tail).0 =~= unpack_stream(tail).0);
    } else {
        let r = rs[0];
        let more = rs.drop_first();
        assert(well_formed(r));
        assert forall|k: int| 0 <= k < more.len() implies well_formed(#[trigger] more[k]) by {
            assert(more[k] == rs[k + 1]);
        }
        lemma_stream_reads_back(more, tail);
        let rest = encoded(more) + tail;
        let s = encoded(rs) + tail;
        assert(s =~= r.header + r.name + r.size + r.data + rest);
        lemma_record_reads_back(r.header, r.name, r.size, r.data, rest);
        lemma_le_value_below(r.size);
        assert(pow256(8) == 0x1_0000_0000_0000_0000) by {
            reveal_with_fuel(pow256, 9);
        }
        let used = 12 + r.name.len();
        let size = r.data.len() as u64;
        assert(size == r.data.len());
        assert(s.subrange(used as int, used + size) =~= r.data);
        assert(s.skip(used + size) =~= rest);
        assert(written(rs) =~= seq![(vstd::utf8::decode_utf8(r.name), r.data)] + written(more));
        assert(unpack_stream(s).0 =~= written(rs) + unpack_stream(tail).0);
    }
}

/// Reading a stream that holds well-formed records, then a record whose
/// name is UTF-8 but not safe, then anything, gives the records before it
/// and stops there, refusing it with the error that names it.
pub proof fn lemma_stream_stops_at_unsafe_name(
    rs: Seq<RecordBytes>,
    bad: RecordBytes,
    after: Seq<u8>,
)
    requires
        forall|k: int| 0 <= k < rs.len() ==> well_formed(#[trigger] rs[k]),
        bad.header.len() == 4,
        le_value(bad.header) == bad.name.len(),
        vstd::utf8::valid_utf8(bad.name),
        !safe_name(vstd::utf8::decode_utf8(bad.name)),
        bad.size.len() == 8,
    ensures
        unpack_stream(encoded(rs) + (bad.header + bad.name + bad.size + after)) == (
            written(rs),
            StreamEnd::Refused(unsafe_path_text(vstd::utf8::decode_utf8(bad.name))),
        ),
{
    let tail = bad.header + bad.name + bad.size + after;
    lemma_stream_reads_back(rs, tail);
    lemma_unsafe_record_refused(bad.header, bad.name, bad.size, after);
    assert(written(rs) + Seq::<(Seq<char>, Seq<u8>)>::empty() =~= written(rs));
}

/// A stream that holds only well-formed records is read whole: every record,
/// in order, and the reading completes.
pub proof fn lemma_archive_unpacks_whole(rs: Seq<RecordBytes>)
    requires
        forall|k: int| 0 <= k < rs.len() ==> well_formed(#[trigger] rs[k]),
    ensures
        unpack_stream(encoded(rs)) == (written(rs), StreamEnd::Complete),
{
    lemma_stream_reads_back(rs, Seq::empty());
    assert(encoded(rs) + Seq::<u8>::empty() =~= encoded(rs));
    assert(written(rs) + Seq::<(Seq<char>, Seq<u8>)>::empty() =~= written(rs));
}

proof fn lemma_le_value_below(b: Seq<u8>)
    ensures
        le_value(b) < pow256(b.len()),
    decreases b.len(),
{
    if b.len() > 0 {
        lemma_le_value_below(b.drop_first());
    }
}

} // verus!
