//! Mount units: what is mounted where, and the name of the unit that
//! stands for a mount point.

use vstd::prelude::*;

use crate::fstab::FsEntry;
use crate::text::{to_chars, words, words_of, Sep};
use crate::unit::{Common, Deps, UnitCommon, UnitDeps, UnitImpl, UnitKind};

verus! {

/// A mount, as plain values.
pub struct Mounting {
    pub fs_spec: Seq<char>,
    pub mount_point: Seq<char>,
    pub vfs_type: Seq<char>,
    pub mount_options: Seq<char>,
}

/// What is mounted, where, as what and how.
#[derive(Debug)]
pub struct MountInfo {
    pub fs_spec: String,
    pub mount_point: String,
    pub vfs_type: String,
    pub mount_options: String,
}

impl DeepView for MountInfo {
    type V = Mounting;

    open spec fn deep_view(&self) -> Mounting {
        Mounting {
            fs_spec: self.fs_spec@,
            mount_point: self.mount_point@,
            vfs_type: self.vfs_type@,
            mount_options: self.mount_options@,
        }
    }
}

/// How one character of a path is written in a unit's name: a hyphen by
/// its code, a stroke as a hyphen, every other character as it is.
pub open spec fn escaped_char(c: char) -> Seq<char> {
    if c == '-' {
        "\\x2d"@
    } else if c == '/' {
        "-"@
    } else {
        seq![c]
    }
}

/// How a path is written in a unit's name.
pub open spec fn escaped(path: Seq<char>) -> Seq<char>
    decreases path.len(),
{
    if path.len() == 0 {
        Seq::empty()
    } else {
        escaped(path.drop_last()) + escaped_char(path.last())
    }
}

/// The name of the unit that stands for a mount point: the path without
/// the stroke it begins with, written as a name, or a hyphen for the root,
/// and `.mount` behind it.
pub open spec fn unit_name(mount_point: Seq<char>) -> Seq<char> {
    (if mount_point.len() > 0 && mount_point[0] == '/' {
        if mount_point.len() == 1 {
            "-"@
        } else {
            escaped(mount_point.drop_first())
        }
    } else {
        escaped(mount_point)
    }) + ".mount"@
}

/// The mount point that a line of the kernel's list of mounts names: its
/// fifth field, if it has one.
pub open spec fn mount_point_in(line: Seq<char>) -> Option<Seq<char>> {
    let fields = words(line, Sep::AsciiSpace);
    if fields.len() >= 5 {
        Some(fields[4])
    } else {
        None
    }
}

/// The name of the unit that stands for a mount point.
pub fn mount_point_to_unit_name(mount_point: &str) -> (name: String)
    ensures
        name@ == unit_name(mount_point@),
{
    let chars = to_chars(mount_point);
    proof {
        reveal_strlit("-");
        reveal_strlit("\\x2d");
        reveal_strlit(".mount");
    }
    let from: usize = if chars.len() > 0 && chars[0] == '/' {
        1
    } else {
        0
    };
    let mut name = String::new();
    if from == 1 && chars.len() == 1 {
        name.append("-");
        assert(name@ =~= "-"@);
    } else {
        let ghost path = mount_point@.subrange(from as int, mount_point@.len() as int);
        let mut i: usize = from;
        assert(path.take(0) =~= Seq::<char>::empty());
        while i < chars.len()
            invariant
                from <= i <= chars.len(),
                chars@ == mount_point@,
                path == mount_point@.subrange(from as int, mount_point@.len() as int),
                name@ == escaped(path.take(i - from)),
            decreases chars.len() - i,
        {
            let c = chars[i];
            let ghost before = name@;
            proof {
                assert(path.take(i - from + 1).drop_last() =~= path.take(i - from));
                assert(path.take(i - from + 1).last() == c);
            }
            if c == '-' {
                name.append("\\x2d");
            } else if c == '/' {
                name.append("-");
            } else {
                let one = mount_point.substring_char(i, i + 1);
                assert(one@ =~= seq![c]);
                name.append(one);
            }
            i += 1;
        }
        assert(path.take(path.len() as int) =~= path);
        assert(from == 1 ==> path =~= mount_point@.drop_first());
        assert(from == 0 ==> path =~= mount_point@);
    }
    name.append(".mount");
    name
}

/// The mount point that a line of the kernel's list of mounts names.
pub fn mount_point_of_line(line: &str) -> (r: Option<String>)
    ensures
        match r {
            Some(point) => mount_point_in(line@) == Some(point@),
            None => mount_point_in(line@) is None,
        },
{
    let fields = words_of(line, Sep::AsciiSpace);
    if fields.len() >= 5 {
        assert(fields.deep_view()[4] == fields[4]@);
        Some(fields[4].clone())
    } else {
        None
    }
}

impl FsEntry {
    /// The mount that the entry asks for.
    pub fn mount_info(&self) -> (info: MountInfo)
        ensures
            info.deep_view() == (Mounting {
                fs_spec: self.fs_spec@,
                mount_point: self.mount_point@,
                vfs_type: self.vfs_type@,
                mount_options: self.mount_options@,
            }),
    {
        MountInfo {
            fs_spec: self.fs_spec.clone(),
            mount_point: self.mount_point.clone(),
            vfs_type: self.vfs_type.clone(),
            mount_options: self.mount_options.clone(),
        }
    }
}

impl UnitImpl<MountInfo> {
    /// The unit that stands for a mount: it is named after the mount
    /// point, has no description and names nobody.
    pub fn from_mount(info: MountInfo) -> (unit: UnitImpl<MountInfo>)
        ensures
            unit.common.deep_view() == (Common {
                name: unit_name(info.mount_point@),
                description: Seq::<char>::empty(),
                documentation: Seq::<char>::empty(),
                deps: Deps::none(),
            }),
            unit.sub.deep_view() == info.deep_view(),
    {
        let name = mount_point_to_unit_name(info.mount_point.as_str());
        UnitImpl {
            common: UnitCommon {
                name,
                description: String::new(),
                documentation: String::new(),
                deps: UnitDeps::new(),
            },
            sub: info,
        }
    }

    /// The unit that stands for an entry of the table of file systems.
    pub fn from_entry(entry: &FsEntry) -> (unit: UnitImpl<MountInfo>)
        ensures
            unit.common.deep_view() == (Common {
                name: unit_name(entry.mount_point@),
                description: Seq::<char>::empty(),
                documentation: Seq::<char>::empty(),
                deps: Deps::none(),
            }),
            unit.sub.deep_view() == (Mounting {
                fs_spec: entry.fs_spec@,
                mount_point: entry.mount_point@,
                vfs_type: entry.vfs_type@,
                mount_options: entry.mount_options@,
            }),
    {
        UnitImpl::<MountInfo>::from_mount(entry.mount_info())
    }

    /// The kind of the unit.
    pub fn kind(&self) -> (kind: UnitKind)
        ensures
            kind == UnitKind::Mount,
    {
        UnitKind::Mount
    }
}

} // verus!
