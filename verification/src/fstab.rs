//! Lines of a table of file systems.

use vstd::prelude::*;

use crate::text::{
    first_line, first_line_of, number, parse_u8, trim, trimmed, words, words_of, IntErrorKind, Sep,
};

verus! {

/// Why a text is not a number.
#[derive(Clone, Copy, Debug, PartialEq, Eq, Structural)]
pub struct ParseIntError {
    kind: IntErrorKind,
}

impl ParseIntError {
    /// What is wrong with the text.
    pub closed spec fn why(self) -> IntErrorKind {
        self.kind
    }

    /// What is wrong with the text.
    pub fn kind(&self) -> (kind: IntErrorKind)
        ensures
            kind == self.why(),
    {
        self.kind
    }

    /// The error for what is wrong.
    pub fn new(kind: IntErrorKind) -> (e: ParseIntError)
        ensures
            e.why() == kind,
    {
        ParseIntError { kind }
    }
}

/// Why a line is not an entry.
#[derive(Clone, Copy, Debug, PartialEq, Eq, Structural)]
pub enum Error {
    /// The fifth or the sixth field is not a number below 256.
    Parse(ParseIntError),
    /// The line has this many fields, which is neither four nor six.
    Argnum(usize),
}

/// What is wrong with a line, as plain values.
pub enum Fault {
    Parse(IntErrorKind),
    Argnum(int),
}

impl Error {
    /// What is wrong with the line.
    pub open spec fn fault(self) -> Fault {
        match self {
            Error::Parse(e) => Fault::Parse(e.why()),
            Error::Argnum(n) => Fault::Argnum(n as int),
        }
    }
}

/// An entry, as plain values.
pub struct Entry {
    pub fs_spec: Seq<char>,
    pub mount_point: Seq<char>,
    pub vfs_type: Seq<char>,
    pub mount_options: Seq<char>,
    pub dump: bool,
    pub fsck_order: u8,
}

/// One file system of the table: what is mounted, where, as what and how,
/// whether it is dumped, and when it is checked.
#[derive(Debug)]
pub struct FsEntry {
    pub fs_spec: String,
    pub mount_point: String,
    pub vfs_type: String,
    pub mount_options: String,
    pub dump: bool,
    pub fsck_order: u8,
}

impl DeepView for FsEntry {
    type V = Entry;

    open spec fn deep_view(&self) -> Entry {
        Entry {
            fs_spec: self.fs_spec@,
            mount_point: self.mount_point@,
            vfs_type: self.vfs_type@,
            mount_options: self.mount_options@,
            dump: self.dump,
            fsck_order: self.fsck_order,
        }
    }
}

impl Clone for FsEntry {
    fn clone(&self) -> (entry: FsEntry)
        ensures
            entry.deep_view() == self.deep_view(),
    {
        FsEntry {
            fs_spec: self.fs_spec.clone(),
            mount_point: self.mount_point.clone(),
            vfs_type: self.vfs_type.clone(),
            mount_options: self.mount_options.clone(),
            dump: self.dump,
            fsck_order: self.fsck_order,
        }
    }
}

impl PartialEq for FsEntry {
    fn eq(&self, other: &FsEntry) -> (r: bool) {
        self.fs_spec == other.fs_spec && self.mount_point == other.mount_point && self.vfs_type
            == other.vfs_type && self.mount_options == other.mount_options && self.dump
            == other.dump && self.fsck_order == other.fsck_order
    }
}

impl vstd::std_specs::cmp::PartialEqSpecImpl for FsEntry {
    open spec fn obeys_eq_spec() -> bool {
        true
    }

    open spec fn eq_spec(&self, other: &FsEntry) -> bool {
        self.fs_spec@ == other.fs_spec@ && self.mount_point@ == other.mount_point@
            && self.vfs_type@ == other.vfs_type@ && self.mount_options@ == other.mount_options@
            && self.dump == other.dump && self.fsck_order == other.fsck_order
    }
}

impl Eq for FsEntry {

}

/// The device that the first field names. A field that begins with `UUID`
/// names the device with the identifier that follows the character behind
/// those four; every other field names the device itself.
pub open spec fn device(field: Seq<char>) -> Seq<char> {
    if field.len() >= 4 && field.subrange(0, 4) == "UUID"@ {
        "/dev/disk/by-uuid/"@ + if field.len() > 5 {
            field.subrange(5, field.len() as int)
        } else {
            Seq::empty()
        }
    } else {
        field
    }
}

/// The entry that four fields give: it is not dumped and not checked.
pub open spec fn entry_of(fields: Seq<Seq<char>>) -> Entry {
    Entry {
        fs_spec: device(fields[0]),
        mount_point: fields[1],
        vfs_type: fields[2],
        mount_options: fields[3],
        dump: false,
        fsck_order: 0,
    }
}

/// What the fields of a line give: with four fields, their entry; with
/// six, their entry, dumped unless the fifth field is the number 0, and
/// checked in the order that the sixth field gives; with any other number
/// of fields, nothing.
pub open spec fn read_fields(fields: Seq<Seq<char>>) -> Result<Entry, Fault> {
    if fields.len() == 4 {
        Ok(entry_of(fields))
    } else if fields.len() == 6 {
        match number(fields[4]) {
            Err(kind) => Err(Fault::Parse(kind)),
            Ok(dump) => match number(fields[5]) {
                Err(kind) => Err(Fault::Parse(kind)),
                Ok(order) => Ok(Entry { dump: dump != 0, fsck_order: order, ..entry_of(fields) }),
            },
        }
    } else {
        Err(Fault::Argnum(fields.len() as int))
    }
}

/// The fields of a text: the words of its first line.
pub open spec fn fields_of(text: Seq<char>) -> Seq<Seq<char>> {
    words(trimmed(first_line(text)), Sep::AsciiSpace)
}

/// What a text gives: what the fields of its first line give.
pub open spec fn read_line(text: Seq<char>) -> Result<Entry, Fault> {
    read_fields(fields_of(text))
}

/// Whether a line of the table is one to read: not a comment, which begins
/// with `#`, and not blank.
pub open spec fn is_entry_line(line: Seq<char>) -> bool {
    !(line.len() > 0 && line[0] == '#') && trimmed(line).len() > 0
}

/// The entry that a line of the table gives, if it is one to read and can
/// be read.
pub open spec fn entry_in() -> spec_fn(Seq<char>) -> Option<Entry> {
    |line: Seq<char>|
        if is_entry_line(line) {
            match read_line(line) {
                Ok(entry) => Some(entry),
                Err(_) => None,
            }
        } else {
            None
        }
}

/// Whether what was read is what the text gives.
pub open spec fn reads_as(r: Result<FsEntry, Error>, given: Result<Entry, Fault>) -> bool {
    match r {
        Ok(entry) => given == Ok::<Entry, Fault>(entry.deep_view()),
        Err(e) => given == Err::<Entry, Fault>(e.fault()),
    }
}

/// The device that the first field names.
fn device_of(field: &str) -> (r: String)
    ensures
        r@ == device(field@),
{
    let chars = crate::text::to_chars(field);
    proof {
        reveal_strlit("UUID");
        reveal_strlit("/dev/disk/by-uuid/");
    }
    if chars.len() >= 4 && chars[0] == 'U' && chars[1] == 'U' && chars[2] == 'I' && chars[3]
        == 'D' {
        assert(field@.subrange(0, 4) =~= "UUID"@);
        let rest = if chars.len() > 5 {
            field.substring_char(5, chars.len())
        } else {
            field.substring_char(0, 0)
        };
        let mut path = "/dev/disk/by-uuid/".to_owned();
        path.append(rest);
        assert(chars.len() <= 5 ==> rest@ =~= Seq::<char>::empty());
        path
    } else {
        assert(field@.len() >= 4 ==> field@.subrange(0, 4) != "UUID"@) by {
            if field@.len() >= 4 {
                let head = field@.subrange(0, 4);
                assert(head[0] == field@[0] && head[1] == field@[1] && head[2] == field@[2]
                    && head[3] == field@[3]);
            }
        }
        field.to_owned()
    }
}

impl FsEntry {
    /// The entry that the fields of a line give, or what is wrong with
    /// them.
    pub fn try_from_fields(fields: &Vec<String>) -> (r: Result<FsEntry, Error>)
        ensures
            reads_as(r, read_fields(fields.deep_view())),
    {
        let n = fields.len();
        if n != 4 && n != 6 {
            return Err(Error::Argnum(n));
        }
        let ghost all = fields.deep_view();
        assert(all[0] == fields[0]@ && all[1] == fields[1]@ && all[2] == fields[2]@ && all[3]
            == fields[3]@);
        let entry = FsEntry {
            fs_spec: device_of(fields[0].as_str()),
            mount_point: fields[1].clone(),
            vfs_type: fields[2].clone(),
            mount_options: fields[3].clone(),
            dump: false,
            fsck_order: 0,
        };
        if n == 4 {
            return Ok(entry);
        }
        assert(all[4] == fields[4]@ && all[5] == fields[5]@);
        let dump = match parse_u8(fields[4].as_str()) {
            Ok(dump) => dump != 0,
            Err(kind) => {
                return Err(Error::Parse(ParseIntError::new(kind)));
            },
        };
        let fsck_order = match parse_u8(fields[5].as_str()) {
            Ok(order) => order,
            Err(kind) => {
                return Err(Error::Parse(ParseIntError::new(kind)));
            },
        };
        Ok(
            FsEntry {
                fs_spec: entry.fs_spec,
                mount_point: entry.mount_point,
                vfs_type: entry.vfs_type,
                mount_options: entry.mount_options,
                dump,
                fsck_order,
            },
        )
    }

    /// The entry that the first line of `value` gives, or what is wrong
    /// with it. The fields of the line are parted by white space of ASCII.
    pub fn try_from(value: &str) -> (r: Result<FsEntry, Error>)
        ensures
            reads_as(r, read_line(value@)),
    {
        let line = trim(first_line_of(value));
        let fields = words_of(line, Sep::AsciiSpace);
        FsEntry::try_from_fields(&fields)
    }

    /// The entries that the lines of a table give, in their order. Lines
    /// that are comments or blank, and lines that cannot be read, give
    /// none.
    pub fn from_lines(lines: &Vec<String>) -> (found: Vec<FsEntry>)
        ensures
            found.deep_view() == lines.deep_view().filter_map(entry_in()),
    {
        let ghost all = lines.deep_view();
        let mut found: Vec<FsEntry> = Vec::new();
        let mut i: usize = 0;
        assert(found.deep_view() =~= all.take(0).filter_map(entry_in()));
        while i < lines.len()
            invariant
                i <= lines.len(),
                all == lines.deep_view(),
                found.deep_view() =~= all.take(i as int).filter_map(entry_in()),
            decreases lines.len() - i,
        {
            let ghost before = found.deep_view();
            let line = lines[i].as_str();
            let chars = crate::text::to_chars(line);
            proof {
                assert(all[i as int] == line@);
                all.lemma_filter_map_take_succ(entry_in(), i as int);
            }
            let comment = chars.len() > 0 && chars[0] == '#';
            if !comment && !trim(line).is_empty() {
                match FsEntry::try_from(line) {
                    Ok(entry) => {
                        found.push(entry);
                        assert(found.deep_view() =~= before.push(entry.deep_view()));
                    },
                    Err(_) => {},
                }
            }
            i += 1;
        }
        assert(all.take(all.len() as int) =~= all);
        found
    }
}

} // verus!
