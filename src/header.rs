//! The 256-byte header at the start of every file: type magic, description
//! and big-endian size.
use vstd::prelude::*;

use crate::device::{sectors_for, size_to_sectors, SECTOR_SIZE};

verus! {

/// Size of a Qoob file header
pub const HEADER_SIZE: usize = 256;

/// Offset of the big-endian size field within a header
pub const SIZE_OFFSET: usize = 0xFC;

/// Offset of the description field within a header
pub const DESCRIPTION_OFFSET: usize = 0x04;

/// Length of the description field
pub const DESCRIPTION_LEN: usize = 244;

/// Known file types
#[derive(Debug, Clone, Copy)]
pub enum FileType {
    Bios,
    /// An MPEG-1 I-Frame
    ///
    /// Used by the stock Qoob BIOS
    Background,
    /// Used by the stock Qoob BIOS
    Config,
    /// Used by the stock Qoob BIOS
    CheatDb,
    /// Used by the stock Qoob BIOS
    CheatEngine,
    /// Unused, but specified by the Qoob NFO
    Bin,
    /// Unused, but specified by the Qoob NFO
    Dol,
    /// Can be an ELF or a DOL
    ///
    /// Used by the stock Qoob BIOS
    Elf,
    /// Used by Swiss to store arbitrary data
    Swiss,
    Unknown([u8; 4]),
}

/// The known type whose magic is `a b c d`, if any.
pub open spec fn tag_type(a: u8, b: u8, c: u8, d: u8) -> Option<FileType> {
    if a == 0x28 && b == 0x43 && c == 0x29 && d == 0x20 {
        Some(FileType::Bios)  // "(C) "
    } else if a == 0x51 && b == 0x50 && c == 0x49 && d == 0x43 {
        Some(FileType::Background)  // "QPIC"
    } else if a == 0x51 && b == 0x43 && c == 0x46 && d == 0x47 {
        Some(FileType::Config)  // "QCFG"
    } else if a == 0x51 && b == 0x43 && c == 0x48 && d == 0x54 {
        Some(FileType::CheatDb)  // "QCHT"
    } else if a == 0x51 && b == 0x43 && c == 0x48 && d == 0x45 {
        Some(FileType::CheatEngine)  // "QCHE"
    } else if a == 0x42 && b == 0x49 && c == 0x4E && d == 0x00 {
        Some(FileType::Bin)  // "BIN\0"
    } else if a == 0x44 && b == 0x4F && c == 0x4C && d == 0x00 {
        Some(FileType::Dol)  // "DOL\0"
    } else if a == 0x45 && b == 0x4C && c == 0x46 && d == 0x00 {
        Some(FileType::Elf)  // "ELF\0"
    } else if a == 0x53 && b == 0x57 && c == 0x49 && d == 0x53 {
        Some(FileType::Swiss)  // "SWIS"
    } else {
        None
    }
}

/// The known type named by the first four bytes of `h`, if any.
pub open spec fn magic_type(h: Seq<u8>) -> Option<FileType> {
    tag_type(h[0], h[1], h[2], h[3])
}

/// Whether the first four bytes of `h` are the magic of a known type.
pub open spec fn known_magic(h: Seq<u8>) -> bool {
    magic_type(h) is Some
}

/// The name under which a file type is shown.
pub open spec fn display_name(t: FileType) -> Seq<char> {
    match t {
        FileType::Bios => "BIOS"@,
        FileType::Background => "QPIC"@,
        FileType::Config => "QCFG"@,
        FileType::CheatDb => "QCHT"@,
        FileType::CheatEngine => "QCHE"@,
        FileType::Bin => "BIN"@,
        FileType::Dol => "DOL"@,
        FileType::Elf => "ELF"@,
        FileType::Swiss => "Swiss"@,
        FileType::Unknown(_) => "???"@,
    }
}

impl FileType {
    /// Identify a file type by its four magic bytes.
    pub fn from_magic(magic: &[u8; 4]) -> (r: FileType)
        ensures
            r == (match tag_type(magic[0], magic[1], magic[2], magic[3]) {
                Some(t) => t,
                None => FileType::Unknown(*magic),
            }),
    {
        let (a, b, c, d) = (magic[0], magic[1], magic[2], magic[3]);
        if a == 0x28 && b == 0x43 && c == 0x29 && d == 0x20 {
            FileType::Bios
        } else if a == 0x51 && b == 0x50 && c == 0x49 && d == 0x43 {
            FileType::Background
        } else if a == 0x51 && b == 0x43 && c == 0x46 && d == 0x47 {
            FileType::Config
        } else if a == 0x51 && b == 0x43 && c == 0x48 && d == 0x54 {
            FileType::CheatDb
        } else if a == 0x51 && b == 0x43 && c == 0x48 && d == 0x45 {
            FileType::CheatEngine
        } else if a == 0x42 && b == 0x49 && c == 0x4E && d == 0x00 {
            FileType::Bin
        } else if a == 0x44 && b == 0x4F && c == 0x4C && d == 0x00 {
            FileType::Dol
        } else if a == 0x45 && b == 0x4C && c == 0x46 && d == 0x00 {
            FileType::Elf
        } else if a == 0x53 && b == 0x57 && c == 0x49 && d == 0x53 {
            FileType::Swiss
        } else {
            FileType::Unknown(*magic)
        }
    }

    /// Short display name of the type
    pub fn str(&self) -> (r: &'static str)
        ensures
            r@ == display_name(*self),
    {
        match self {
            FileType::Bios => "BIOS",
            FileType::Background => "QPIC",
            FileType::Config => "QCFG",
            FileType::CheatDb => "QCHT",
            FileType::CheatEngine => "QCHE",
            FileType::Bin => "BIN",
            FileType::Dol => "DOL",
            FileType::Elf => "ELF",
            FileType::Swiss => "Swiss",
            FileType::Unknown(_) => "???",
        }
    }
}

/// The big-endian 32-bit number stored at `at` in `h`.
pub open spec fn be32(h: Seq<u8>, at: int) -> int {
    h[at] * 0x100_0000 + h[at + 1] * 0x1_0000 + h[at + 2] * 0x100 + h[at + 3]
}

/// The size in bytes that header bytes `h` declare.
pub open spec fn declared_size(h: Seq<u8>) -> int {
    be32(h, SIZE_OFFSET as int)
}

/// The number of sectors a file with header bytes `h` spans.
pub open spec fn declared_span(h: Seq<u8>) -> int {
    sectors_for(declared_size(h))
}

/// The digit for `n` (below 16) in lower-case hexadecimal.
pub open spec fn hex_char(n: int) -> char {
    if n < 10 {
        (n + 0x30) as char
    } else {
        (n - 10 + 0x61) as char
    }
}

/// The ASCII escape of one byte: printable bytes stand for themselves, tab,
/// carriage return, line feed, quotes and backslash take a backslash escape,
/// every other byte becomes `\xNN` in lower-case hexadecimal.
pub open spec fn escape_byte(b: u8) -> Seq<char> {
    if b == 0x09 {
        seq!['\\', 't']
    } else if b == 0x0D {
        seq!['\\', 'r']
    } else if b == 0x0A {
        seq!['\\', 'n']
    } else if b == 0x27 {
        seq!['\\', '\'']
    } else if b == 0x22 {
        seq!['\\', '"']
    } else if b == 0x5C {
        seq!['\\', '\\']
    } else if 0x20 <= b <= 0x7E {
        seq![b as char]
    } else {
        seq!['\\', 'x', hex_char(b as int / 16), hex_char(b as int % 16)]
    }
}

/// The escapes of all bytes of `s`, one after the other.
pub open spec fn escape_all(s: Seq<u8>) -> Seq<char>
    decreases s.len(),
{
    if s.len() == 0 {
        seq![]
    } else {
        escape_all(s.drop_last()) + escape_byte(s.last())
    }
}

/// Index of the first NUL byte of `d` at or after `i`, or its length if none.
pub open spec fn nul_index(d: Seq<u8>, i: int) -> int
    decreases d.len() - i,
{
    if i >= d.len() || (0 <= i && d[i] == 0) {
        i
    } else {
        nul_index(d, i + 1)
    }
}

/// The description field of header bytes `h`.
pub open spec fn description_field(h: Seq<u8>) -> Seq<u8> {
    h.subrange(DESCRIPTION_OFFSET as int, (DESCRIPTION_OFFSET + DESCRIPTION_LEN) as int)
}

/// The text of a NUL-terminated field: its bytes before the first NUL.
pub open spec fn field_text(d: Seq<u8>) -> Seq<u8> {
    d.take(nul_index(d, 0))
}

/// Relies on `String::push`: appends one character.
#[verifier::external_body]
fn push_char(s: &mut String, c: char)
    ensures
        final(s)@ == old(s)@.push(c),
{
    s.push(c)
}

/// The lower-case hexadecimal digit for `n`.
fn hex_digit(n: u8) -> (r: char)
    requires
        n < 16,
    ensures
        r == hex_char(n as int),
{
    if n < 10 {
        (n + 0x30) as char
    } else {
        (n - 10 + 0x61) as char
    }
}

/// Append the escape of `b` to `s`.
fn push_escaped(s: &mut String, b: u8)
    ensures
        final(s)@ == old(s)@ + escape_byte(b),
{
    let ghost s0 = s@;
    if b == 0x09 {
        push_char(s, '\\');
        push_char(s, 't');
    } else if b == 0x0D {
        push_char(s, '\\');
        push_char(s, 'r');
    } else if b == 0x0A {
        push_char(s, '\\');
        push_char(s, 'n');
    } else if b == 0x27 {
        push_char(s, '\\');
        push_char(s, '\'');
    } else if b == 0x22 {
        push_char(s, '\\');
        push_char(s, '"');
    } else if b == 0x5C {
        push_char(s, '\\');
        push_char(s, '\\');
    } else if 0x20 <= b && b <= 0x7E {
        push_char(s, b as char);
    } else {
        push_char(s, '\\');
        push_char(s, 'x');
        push_char(s, hex_digit(b / 16));
        push_char(s, hex_digit(b % 16));
    }
    assert(s@ =~= s0 + escape_byte(b));
}

/// Newtype for Qoob file headers with accessors
#[derive(Clone, Copy)]
pub struct Header(pub [u8; HEADER_SIZE]);

impl View for Header {
    type V = Seq<u8>;

    open spec fn view(&self) -> Seq<u8> {
        self.0@
    }
}

impl Header {
    /// Returns the file type
    pub fn file_type(&self) -> (r: FileType)
        ensures
            r == (match magic_type(self@) {
                Some(t) => t,
                None => FileType::Unknown([self@[0], self@[1], self@[2], self@[3]]),
            }),
    {
        let magic: [u8; 4] = [self.0[0], self.0[1], self.0[2], self.0[3]];
        FileType::from_magic(&magic)
    }

    /// Whether the type magic is one of the known ones
    pub fn has_known_type(&self) -> (r: bool)
        ensures
            r == known_magic(self@),
    {
        !matches!(self.file_type(), FileType::Unknown(_))
    }

    /// The raw description field
    pub fn description(&self) -> (r: &[u8])
        ensures
            r@ == description_field(self@),
    {
        &self.0[DESCRIPTION_OFFSET..DESCRIPTION_OFFSET + DESCRIPTION_LEN]
    }

    /// The description field as an escaped string: the bytes before the
    /// first NUL, each printable ASCII byte as itself and the others escaped
    pub fn description_string(&self) -> (r: String)
        ensures
            r@ == escape_all(field_text(description_field(self@))),
    {
        let d = self.description();
        let mut r = String::new();
        let mut i: usize = 0;
        while i < d.len() && d[i] != 0
            invariant
                d@ == description_field(self@),
                0 <= i <= d@.len(),
                nul_index(d@, i as int) == nul_index(d@, 0),
                r@ == escape_all(d@.take(i as int)),
            decreases d@.len() - i,
        {
            push_escaped(&mut r, d[i]);
            assert(d@.take(i as int + 1).drop_last() =~= d@.take(i as int));
            i = i + 1;
        }
        r
    }

    /// The size in bytes
    pub fn size(&self) -> (r: usize)
        ensures
            r == declared_size(self@),
    {
        let b0 = self.0[SIZE_OFFSET] as usize;
        let b1 = self.0[SIZE_OFFSET + 1] as usize;
        let b2 = self.0[SIZE_OFFSET + 2] as usize;
        let b3 = self.0[SIZE_OFFSET + 3] as usize;
        (b0 * 0x100_0000 + b1 * 0x1_0000 + b2 * 0x100 + b3) as usize
    }

    /// How many sectors the file spans
    pub fn sector_count(&self) -> (r: usize)
        ensures
            r == declared_span(self@),
    {
        size_to_sectors(self.size())
    }
}

/// Whether `data` starts with a well-formed header: at least a header long,
/// a known type magic, and a declared size equal to its length or to its
/// length rounded up to whole sectors.
pub open spec fn valid_payload(data: Seq<u8>) -> bool {
    &&& data.len() >= HEADER_SIZE
    &&& known_magic(data)
    &&& (declared_size(data) == data.len() || declared_size(data) == sectors_for(data.len() as int)
        * SECTOR_SIZE)
}

/// Validate a file header
pub fn validate_header(data: &[u8]) -> (r: Option<Header>)
    ensures
        r is Some <==> valid_payload(data@),
        r is Some ==> r->0@ == data@.take(HEADER_SIZE as int),
{
    if data.len() < HEADER_SIZE {
        return None;
    }
    let mut bytes = [0u8; HEADER_SIZE];
    let mut i: usize = 0;
    while i < HEADER_SIZE
        invariant
            0 <= i <= HEADER_SIZE <= data@.len(),
            forall|j: int| 0 <= j < i ==> bytes@[j] == data@[j],
        decreases HEADER_SIZE - i,
    {
        bytes[i] = data[i];
        i = i + 1;
    }
    let header = Header(bytes);
    assert(header@ =~= data@.take(HEADER_SIZE as int));
    let size = header.size();
    let sectors = size_to_sectors(data.len());
    let rounded = size % SECTOR_SIZE == 0 && size / SECTOR_SIZE == sectors;
    assert(rounded == (size == sectors * SECTOR_SIZE)) by (nonlinear_arith)
        requires
            rounded == (size % SECTOR_SIZE == 0 && size / SECTOR_SIZE == sectors),
    ;
    if (size == data.len() || rounded) && header.has_known_type() {
        Some(header)
    } else {
        None
    }
}

} // verus!
