//! The framed message: a version tag, the length of what follows, and any
//! number of named entries.
//!
//! On the wire a message is
//!
//! ```text
//! [tag: 1 byte][payload length: 4 bytes][entry]*
//! entry = [name length: 4 bytes][name][content length: 4 bytes][content]
//! ```
//!
//! with every length big-endian and every name in UTF-8. The payload length
//! is the sum of the lengths of the entries, so a reader knows where the
//! message ends without looking at the bytes behind it. A text travels as
//! an entry of its own, with the empty name, ahead of the files.

use crate::error::SteganoError;
use crate::lsb_codec::{lemma_after_read_twice, lemma_stream_after_read, LSBCodec};
use vstd::prelude::*;
use vstd::slice::{slice_subrange, slice_to_vec};
use vstd::string::StringSliceAdditionalSpecFns;
use vstd::utf8::{
    decode_utf8,
    encode_utf8,
    encode_utf8_decode_utf8,
    encode_utf8_valid_utf8,
    valid_utf8,
};

verus! {

/// The revision of the wire format that a message is written in.
#[derive(Clone, Copy, Debug, PartialEq, Eq, Structural)]
pub enum ContentVersion {
    /// Length-prefixed payload of length-prefixed entries.
    V4,
}

impl ContentVersion {
    /// The byte that stands for this version at the start of a stream.
    pub open spec fn tag(self) -> u8 {
        match self {
            ContentVersion::V4 => 0x04,
        }
    }

    /// The version that a tag byte stands for, if any.
    pub open spec fn of_tag(tag: u8) -> Option<ContentVersion> {
        if tag == 0x04 {
            Some(ContentVersion::V4)
        } else {
            None
        }
    }

    /// The byte that stands for this version at the start of a stream.
    pub fn to_u8(&self) -> (tag: u8)
        ensures
            tag == self.tag(),
            ContentVersion::of_tag(tag) == Some(*self),
    {
        match self {
            ContentVersion::V4 => 0x04,
        }
    }

    /// The version that a tag byte stands for, or `None` for a byte that
    /// stands for none.
    pub fn from_u8(tag: u8) -> (version: Option<ContentVersion>)
        ensures
            version == ContentVersion::of_tag(tag),
            version matches Some(v) ==> v.tag() == tag,
    {
        if tag == 0x04 {
            Some(ContentVersion::V4)
        } else {
            None
        }
    }
}

/// The four bytes of a length, most significant first.
pub open spec fn be32(n: nat) -> Seq<u8> {
    seq![
        ((n / 0x100_0000) % 0x100) as u8,
        ((n / 0x1_0000) % 0x100) as u8,
        ((n / 0x100) % 0x100) as u8,
        (n % 0x100) as u8,
    ]
}

/// The length that four bytes stand for, most significant first.
pub open spec fn from_be32(bytes: Seq<u8>) -> nat {
    (bytes[0] as nat) * 0x100_0000 + (bytes[1] as nat) * 0x1_0000 + (bytes[2] as nat) * 0x100
        + bytes[3] as nat
}

/// A length that fits four bytes is read back as it was written.
pub proof fn lemma_be32(n: nat)
    requires
        n <= u32::MAX,
    ensures
        be32(n).len() == 4,
        from_be32(be32(n)) == n,
{
}

/// One entry on the wire.
pub open spec fn entry_bytes(entry: (Seq<char>, Seq<u8>)) -> Seq<u8> {
    be32(encode_utf8(entry.0).len()) + encode_utf8(entry.0) + be32(entry.1.len()) + entry.1
}

/// Entries on the wire, one behind the other.
pub open spec fn entries_bytes(entries: Seq<(Seq<char>, Seq<u8>)>) -> Seq<u8>
    decreases entries.len(),
{
    if entries.len() == 0 {
        Seq::empty()
    } else {
        entry_bytes(entries.first()) + entries_bytes(entries.drop_first())
    }
}

/// The entry at the start of `bytes` and the number of bytes it takes, or
/// `None` where a length reaches beyond `bytes` or the name is not UTF-8.
pub open spec fn parse_entry(bytes: Seq<u8>) -> Option<((Seq<char>, Seq<u8>), int)> {
    if bytes.len() < 4 {
        None
    } else {
        let n = from_be32(bytes.subrange(0, 4)) as int;
        if bytes.len() < 8 + n {
            None
        } else {
            let name = bytes.subrange(4, 4 + n);
            let m = from_be32(bytes.subrange(4 + n, 8 + n)) as int;
            if bytes.len() < 8 + n + m || !valid_utf8(name) {
                None
            } else {
                Some(((decode_utf8(name), bytes.subrange(8 + n, 8 + n + m)), 8 + n + m))
            }
        }
    }
}

/// The entries that `bytes` hold from end to end, or `None` where they do
/// not divide into entries.
pub open spec fn parse_entries(bytes: Seq<u8>) -> Option<Seq<(Seq<char>, Seq<u8>)>>
    decreases bytes.len(),
{
    if bytes.len() == 0 {
        Some(Seq::empty())
    } else {
        match parse_entry(bytes) {
            None => None,
            Some((entry, used)) => match parse_entries(bytes.skip(used)) {
                None => None,
                Some(rest) => Some(seq![entry] + rest),
            },
        }
    }
}

/// What a message is, as plain values.
pub struct MessageView {
    pub header: ContentVersion,
    pub files: Seq<(Seq<char>, Seq<u8>)>,
    pub text: Option<Seq<char>>,
}

impl MessageView {
    /// The message with nothing in it.
    pub open spec fn empty() -> MessageView {
        MessageView { header: ContentVersion::V4, files: Seq::empty(), text: None }
    }

    /// The entries that the message is written as: the text, if there is
    /// one, under the empty name, and then the files in their order.
    pub open spec fn entries(self) -> Seq<(Seq<char>, Seq<u8>)> {
        match self.text {
            Some(text) => seq![(Seq::<char>::empty(), encode_utf8(text))] + self.files,
            None => self.files,
        }
    }

    /// The entries on the wire.
    pub open spec fn payload(self) -> Seq<u8> {
        entries_bytes(self.entries())
    }

    /// The length of the payload fits the four bytes that announce it.
    pub open spec fn fits_format(self) -> bool {
        self.payload().len() <= u32::MAX
    }

    /// The message on the wire.
    pub open spec fn wire(self) -> Seq<u8> {
        seq![self.header.tag()] + be32(self.payload().len()) + self.payload()
    }

    /// The message that a reader makes of this one's wire form: the same
    /// entries, all of them as files.
    pub open spec fn as_read(self) -> MessageView {
        MessageView { header: self.header, files: self.entries(), text: None }
    }
}

/// The message at the start of `stream`.
///
/// A stream that is empty or starts with a byte that stands for no version
/// is of unknown format. A stream that ends before the announced payload
/// does, or whose payload does not divide into entries, is malformed.
pub open spec fn decode(stream: Seq<u8>) -> Result<MessageView, SteganoError> {
    if stream.len() < 1 {
        Err(SteganoError::UnknownVersion)
    } else {
        match ContentVersion::of_tag(stream[0]) {
            None => Err(SteganoError::UnknownVersion),
            Some(header) => if stream.len() < 5 {
                Err(SteganoError::MalformedEntry)
            } else {
                let n = from_be32(stream.subrange(1, 5)) as int;
                if stream.len() < 5 + n {
                    Err(SteganoError::MalformedEntry)
                } else {
                    match parse_entries(stream.subrange(5, 5 + n)) {
                        None => Err(SteganoError::MalformedEntry),
                        Some(files) => Ok(MessageView { header, files, text: None }),
                    }
                }
            },
        }
    }
}

/// The number of bytes that decoding asks of `stream`: the tag alone where
/// it is not known, else the tag and the length, and the payload where the
/// length could be read.
pub open spec fn decode_reach(stream: Seq<u8>) -> nat {
    if stream.len() < 1 || ContentVersion::of_tag(stream[0]).is_none() {
        1
    } else if stream.len() < 5 {
        5
    } else {
        5 + from_be32(stream.subrange(1, 5))
    }
}

/// Entries on the wire after more entries are those first and then these.
pub proof fn lemma_entries_bytes_concat(
    first: Seq<(Seq<char>, Seq<u8>)>,
    second: Seq<(Seq<char>, Seq<u8>)>,
)
    ensures
        entries_bytes(first + second) == entries_bytes(first) + entries_bytes(second),
    decreases first.len(),
{
    if first.len() > 0 {
        lemma_entries_bytes_concat(first.drop_first(), second);
        assert((first + second).drop_first() =~= first.drop_first() + second);
    }
}

/// One more entry on the wire comes behind the others.
pub proof fn lemma_entries_bytes_push(
    entries: Seq<(Seq<char>, Seq<u8>)>,
    entry: (Seq<char>, Seq<u8>),
)
    ensures
        entries_bytes(entries.push(entry)) == entries_bytes(entries) + entry_bytes(entry),
{
    lemma_entries_bytes_concat(entries, seq![entry]);
    assert(entries.push(entry) =~= entries + seq![entry]);
    let one = seq![entry];
    assert(entries_bytes(one.drop_first()) =~= Seq::<u8>::empty());
}

/// An entry whose lengths fit four bytes is read back from its wire form,
/// whatever follows it.
pub proof fn lemma_parse_entry(entry: (Seq<char>, Seq<u8>), tail: Seq<u8>)
    requires
        encode_utf8(entry.0).len() <= u32::MAX,
        entry.1.len() <= u32::MAX,
    ensures
        parse_entry(entry_bytes(entry) + tail) == Some((entry, entry_bytes(entry).len() as int)),
{
    let name = encode_utf8(entry.0);
    let bytes = entry_bytes(entry) + tail;
    let n = name.len() as int;
    lemma_be32(name.len());
    lemma_be32(entry.1.len());
    encode_utf8_valid_utf8(entry.0);
    encode_utf8_decode_utf8(entry.0);
    assert(bytes.subrange(4, 4 + n) =~= name);
}

/// Entries whose wire form fits the format are read back from it.
pub proof fn lemma_parse_entries(entries: Seq<(Seq<char>, Seq<u8>)>)
    requires
        entries_bytes(entries).len() <= u32::MAX,
    ensures
        parse_entries(entries_bytes(entries)) == Some(entries),
    decreases entries.len(),
{
    if entries.len() > 0 {
        let first = entries.first();
        let rest = entries.drop_first();
        lemma_parse_entry(first, entries_bytes(rest));
        lemma_parse_entries(rest);
        let bytes = entries_bytes(entries);
        assert(bytes.skip(entry_bytes(first).len() as int) =~= entries_bytes(rest));
    }
}

/// A message that fits the format is read back from its wire form, whatever
/// follows it, and reading asks for no byte behind the message.
pub proof fn lemma_decode_wire(message: MessageView, tail: Seq<u8>)
    requires
        message.fits_format(),
    ensures
        decode(message.wire() + tail) == Ok::<MessageView, SteganoError>(message.as_read()),
        decode_reach(message.wire() + tail) == message.wire().len(),
{
    let stream = message.wire() + tail;
    let n = message.payload().len() as int;
    lemma_be32(message.payload().len());
    lemma_parse_entries(message.entries());
    assert(stream.subrange(5, 5 + n) =~= message.payload());
}

/// A stream whose first byte stands for no version is refused for that, and
/// nothing behind the first byte is asked for.
pub proof fn lemma_decode_unknown_tag(stream: Seq<u8>)
    requires
        stream.len() > 0,
        ContentVersion::of_tag(stream[0]).is_none(),
    ensures
        decode(stream) == Err::<MessageView, SteganoError>(SteganoError::UnknownVersion),
        decode_reach(stream) == 1,
{
}

/// The wire form of a list of entries is at least as long as that of any
/// one of them.
pub proof fn lemma_entries_bytes_covers(entries: Seq<(Seq<char>, Seq<u8>)>, k: int)
    requires
        0 <= k < entries.len(),
    ensures
        entry_bytes(entries[k]).len() <= entries_bytes(entries).len(),
{
    let before = entries.take(k);
    let after = entries.skip(k + 1);
    assert(entries =~= before.push(entries[k]) + after);
    lemma_entries_bytes_concat(before.push(entries[k]), after);
    lemma_entries_bytes_push(before, entries[k]);
}

/// A list of files as plain values.
pub open spec fn files_view(files: Seq<(String, Vec<u8>)>) -> Seq<(Seq<char>, Seq<u8>)> {
    Seq::new(files.len(), |i: int| (files[i].0@, files[i].1@))
}

/// A text and any number of named files, to be hidden together.
#[derive(Clone, Debug, PartialEq, Eq)]
pub struct Message {
    pub header: ContentVersion,
    pub files: Vec<(String, Vec<u8>)>,
    pub text: Option<String>,
}

impl View for Message {
    type V = MessageView;

    open spec fn view(&self) -> MessageView {
        MessageView {
            header: self.header,
            files: files_view(self.files@),
            text: match self.text {
                Some(text) => Some(text@),
                None => None,
            },
        }
    }
}

/// `prefix` ahead of what `rest` holds, where it holds anything.
pub open spec fn ahead_of(
    prefix: Seq<(Seq<char>, Seq<u8>)>,
    rest: Option<Seq<(Seq<char>, Seq<u8>)>>,
) -> Option<Seq<(Seq<char>, Seq<u8>)>> {
    match rest {
        Some(entries) => Some(prefix + entries),
        None => None,
    }
}

/// Appends the four bytes of `n`, most significant first.
fn put_be32(out: &mut Vec<u8>, n: u32)
    ensures
        final(out)@ == old(out)@ + be32(n as nat),
{
    out.push((n / 0x100_0000) as u8);
    out.push(((n / 0x1_0000) % 0x100) as u8);
    out.push(((n / 0x100) % 0x100) as u8);
    out.push((n % 0x100) as u8);
}

/// Reads the four bytes at `at` as a length, most significant first.
fn get_be32(bytes: &[u8], at: usize) -> (n: u32)
    requires
        at + 4 <= bytes@.len(),
    ensures
        n == from_be32(bytes@.subrange(at as int, at + 4)),
{
    (bytes[at] as u32) * 0x100_0000 + (bytes[at + 1] as u32) * 0x1_0000 + (bytes[at + 2] as u32)
        * 0x100 + bytes[at + 3] as u32
}

/// Appends one entry, or nothing where one of its lengths does not fit
/// four bytes.
fn put_entry(out: &mut Vec<u8>, name: &str, content: &[u8]) -> (fits: bool)
    ensures
        fits <==> encode_utf8(name@).len() <= u32::MAX && content@.len() <= u32::MAX,
        fits ==> final(out)@ == old(out)@ + entry_bytes((name@, content@)),
        !fits ==> final(out)@ == old(out)@,
{
    let name_bytes = name.as_bytes();
    if name_bytes.len() > u32::MAX as usize || content.len() > u32::MAX as usize {
        return false;
    }
    put_be32(out, name_bytes.len() as u32);
    out.extend_from_slice(name_bytes);
    put_be32(out, content.len() as u32);
    out.extend_from_slice(content);
    true
}

/// Calls `String::from_utf8`, which accepts the bytes exactly when they are
/// valid UTF-8 and then makes them the string's own.
#[verifier::external_body]
fn string_from_utf8(bytes: Vec<u8>) -> (text: Option<String>)
    ensures
        text.is_some() <==> valid_utf8(bytes@),
        text matches Some(s) ==> encode_utf8(s@) == bytes@,
{
    String::from_utf8(bytes).ok()
}

/// Reads the entry that starts at `at`, and says how many bytes it takes.
fn read_entry(payload: &[u8], at: usize) -> (entry: Option<(String, Vec<u8>, usize)>)
    requires
        at <= payload@.len(),
    ensures
        match entry {
            Some((name, content, used)) => {
                &&& parse_entry(payload@.skip(at as int)) == Some(
                    ((name@, content@), used as int),
                )
                &&& 8 <= used
                &&& at + used <= payload@.len()
            },
            None => parse_entry(payload@.skip(at as int)).is_none(),
        },
{
    let ghost rest = payload@.skip(at as int);
    let left = payload.len() - at;
    if left < 8 {
        return None;
    }
    let n = get_be32(payload, at) as usize;
    if left - 8 < n {
        return None;
    }
    let m = get_be32(payload, at + 4 + n) as usize;
    if left - 8 - n < m {
        return None;
    }
    let name_bytes = slice_to_vec(slice_subrange(payload, at + 4, at + 4 + n));
    assert(rest.subrange(4, 4 + n) =~= name_bytes@);
    let name = match string_from_utf8(name_bytes) {
        Some(name) => name,
        None => {
            return None;
        },
    };
    let content = slice_to_vec(slice_subrange(payload, at + 8 + n, at + 8 + n + m));
    proof {
        encode_utf8_decode_utf8(name@);
    }
    Some((name, content, 8 + n + m))
}

/// Divides a payload into its entries.
fn read_entries(payload: &[u8]) -> (files: Option<Vec<(String, Vec<u8>)>>)
    ensures
        match files {
            Some(files) => parse_entries(payload@) == Some(files_view(files@)),
            None => parse_entries(payload@).is_none(),
        },
{
    let mut files: Vec<(String, Vec<u8>)> = Vec::new();
    let mut at: usize = 0;
    assert(payload@.skip(0) =~= payload@);
    while at < payload.len()
        invariant
            at <= payload@.len(),
            parse_entries(payload@) == ahead_of(
                files_view(files@),
                parse_entries(payload@.skip(at as int)),
            ),
        decreases payload@.len() - at,
    {
        let ghost rest = payload@.skip(at as int);
        match read_entry(payload, at) {
            None => {
                return None;
            },
            Some((name, content, used)) => {
                assert(rest.skip(used as int) =~= payload@.skip(at + used));
                files.push((name, content));
                at = at + used;
            },
        }
    }
    Some(files)
}

impl Message {
    /// A message with nothing in it.
    pub fn empty() -> (message: Self)
        ensures
            message@ == MessageView::empty(),
    {
        let message = Message { header: ContentVersion::V4, files: Vec::new(), text: None };
        assert(files_view(message.files@) =~= Seq::empty());
        message
    }

    /// A message of the given files.
    pub fn new(files: Vec<(String, Vec<u8>)>) -> (message: Self)
        ensures
            message@ == (MessageView {
                header: ContentVersion::V4,
                files: files_view(files@),
                text: None,
            }),
    {
        Message { header: ContentVersion::V4, files, text: None }
    }

    /// Adds a file behind those that the message holds.
    pub fn add_file_data(&mut self, name: &str, content: Vec<u8>)
        ensures
            final(self)@ == (MessageView {
                files: old(self)@.files.push((name@, content@)),
                ..old(self)@
            }),
    {
        self.files.push((name.to_owned(), content));
        assert(files_view(self.files@) =~= old(self)@.files.push((name@, content@)));
    }

    /// The message on the wire, or `CapacityExceeded` where its payload is
    /// longer than four bytes can announce.
    pub fn serialize(&self) -> (result: Result<Vec<u8>, SteganoError>)
        ensures
            match result {
                Ok(bytes) => self@.fits_format() && bytes@ == self@.wire(),
                Err(e) => e == SteganoError::CapacityExceeded && !self@.fits_format(),
            },
    {
        let mut payload: Vec<u8> = Vec::new();
        let ghost files = self@.files;
        let ghost lead: Seq<(Seq<char>, Seq<u8>)> = match self@.text {
            Some(text) => seq![(Seq::<char>::empty(), encode_utf8(text))],
            None => Seq::empty(),
        };
        match &self.text {
            Some(text) => {
                let fits = put_entry(&mut payload, "", text.as_str().as_bytes());
                proof {
                    reveal_strlit("");
                    lemma_entries_bytes_push(Seq::empty(), lead[0]);
                    lemma_entries_bytes_covers(lead + files, 0);
                }
                if !fits {
                    return Err(SteganoError::CapacityExceeded);
                }
            },
            None => {},
        }
        let mut i: usize = 0;
        while i < self.files.len()
            invariant
                i <= self.files@.len(),
                files == files_view(self.files@),
                self@.entries() == lead + files,
                payload@ == entries_bytes(lead + files.take(i as int)),
            decreases self.files@.len() - i,
        {
            let fits = put_entry(
                &mut payload,
                self.files[i].0.as_str(),
                self.files[i].1.as_slice(),
            );
            proof {
                lemma_entries_bytes_push(lead + files.take(i as int), files[i as int]);
                assert((lead + files.take(i as int)).push(files[i as int]) =~= lead + files.take(
                    i + 1,
                ));
                lemma_entries_bytes_covers(lead + files, lead.len() + i);
            }
            if !fits {
                return Err(SteganoError::CapacityExceeded);
            }
            i = i + 1;
        }
        assert(files.take(i as int) =~= files);
        if payload.len() > u32::MAX as usize {
            return Err(SteganoError::CapacityExceeded);
        }
        let mut bytes: Vec<u8> = Vec::new();
        bytes.push(self.header.to_u8());
        put_be32(&mut bytes, payload.len() as u32);
        bytes.append(&mut payload);
        Ok(bytes)
    }

    /// Reads the message at the start of `stream`. What follows the
    /// message in `stream` is not looked at.
    pub fn from_bytes(stream: &[u8]) -> (result: Result<Message, SteganoError>)
        ensures
            match result {
                Ok(message) => decode(stream@) == Ok::<MessageView, SteganoError>(message@),
                Err(e) => decode(stream@) == Err::<MessageView, SteganoError>(e),
            },
    {
        if stream.len() < 1 {
            return Err(SteganoError::UnknownVersion);
        }
        let header = match ContentVersion::from_u8(stream[0]) {
            Some(header) => header,
            None => {
                return Err(SteganoError::UnknownVersion);
            },
        };
        if stream.len() < 5 {
            return Err(SteganoError::MalformedEntry);
        }
        let n = get_be32(stream, 1) as usize;
        if stream.len() - 5 < n {
            return Err(SteganoError::MalformedEntry);
        }
        match read_entries(slice_subrange(stream, 5, 5 + n)) {
            Some(files) => Ok(Message { header, files, text: None }),
            None => Err(SteganoError::MalformedEntry),
        }
    }

    /// Reads the message at the cursor of `codec`.
    ///
    /// The result is what `decode` makes of the bytes from the cursor on.
    /// The cursor passes the bytes that decoding asks for, and no others:
    /// behind an unknown tag nothing is read.
    pub fn of(codec: &mut LSBCodec) -> (result: Result<Message, SteganoError>)
        ensures
            old(codec)@.wf(),
            final(codec)@.wf(),
            final(codec)@ == old(codec)@.after_read(decode_reach(old(codec)@.stream())),
            match result {
                Ok(message) => decode(old(codec)@.stream()) == Ok::<MessageView, SteganoError>(
                    message@,
                ),
                Err(e) => decode(old(codec)@.stream()) == Err::<MessageView, SteganoError>(e),
            },
    {
        let ghost before = codec@;
        let ghost stream = before.stream();
        let tag = codec.read(1);
        if tag.len() < 1 {
            return Err(SteganoError::UnknownVersion);
        }
        let header = match ContentVersion::from_u8(tag[0]) {
            Some(header) => header,
            None => {
                return Err(SteganoError::UnknownVersion);
            },
        };
        proof {
            lemma_stream_after_read(before, 1);
            lemma_after_read_twice(before, 1, 4);
        }
        let length = codec.read(4);
        if length.len() < 4 {
            return Err(SteganoError::MalformedEntry);
        }
        let n = get_be32(length.as_slice(), 0) as usize;
        proof {
            lemma_stream_after_read(before, 5);
            lemma_after_read_twice(before, 5, n as nat);
        }
        let payload = codec.read(n);
        if payload.len() < n {
            return Err(SteganoError::MalformedEntry);
        }
        assert(payload@ =~= stream.subrange(5, 5 + n));
        match read_entries(payload.as_slice()) {
            Some(files) => Ok(Message { header, files, text: None }),
            None => Err(SteganoError::MalformedEntry),
        }
    }
}

} // verus!
