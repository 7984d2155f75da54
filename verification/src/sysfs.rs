//! A write of one value to one sysfs or procfs file.
use vstd::prelude::*;
use vstd::string::*;
use crate::text::{chars_equal, to_chars, trim, trim_chars};

verus! {

/// A value to be written to a kernel interface file. It is written only where the file
/// exists and does not already hold the value (after trimming).
pub struct SysfsWrite {
    pub path: String,
    pub value: String,
}

impl View for SysfsWrite {
    type V = (Seq<char>, Seq<char>);

    open spec fn view(&self) -> (Seq<char>, Seq<char>) {
        (self.path@, self.value@)
    }
}

impl DeepView for SysfsWrite {
    type V = (Seq<char>, Seq<char>);

    open spec fn deep_view(&self) -> (Seq<char>, Seq<char>) {
        (self.path@, self.value@)
    }
}

impl SysfsWrite {
    pub fn new(path: &str, value: &str) -> (w: SysfsWrite)
        ensures
            w@ == (path@, value@),
    {
        SysfsWrite { path: String::from_str(path), value: String::from_str(value) }
    }

    pub fn from_strings(path: String, value: String) -> (w: SysfsWrite)
        ensures
            w@ == (path@, value@),
    {
        SysfsWrite { path, value }
    }
}

/// A directory entry's name and the text of one file under it (`None` where that
/// file could not be read).
pub struct SysfsEntry {
    pub name: String,
    pub content: Option<String>,
}

impl DeepView for SysfsEntry {
    type V = (Seq<char>, Option<Seq<char>>);

    open spec fn deep_view(&self) -> (Seq<char>, Option<Seq<char>>) {
        (
            self.name@,
            match self.content {
                Some(c) => Some(c@),
                None => None,
            },
        )
    }
}

/// A write goes ahead where the file exists and does not already hold the value once
/// trimmed; an unreadable file is written.
pub open spec fn write_needed(exists: bool, current: Option<Seq<char>>, value: Seq<char>) -> bool {
    exists && match current {
        Some(c) => trim(c) != value,
        None => true,
    }
}

impl SysfsWrite {
    /// Whether the write is to be carried out, given whether its file exists and the
    /// file's current text (`None` where it cannot be read).
    pub fn is_needed(&self, exists: bool, current: Option<&str>) -> (b: bool)
        ensures
            b == write_needed(
                exists,
                match current {
                    Some(c) => Some(c@),
                    None => None,
                },
                self.value@,
            ),
    {
        if !exists {
            return false;
        }
        match current {
            Some(c) => {
                let chars = to_chars(c);
                let t = trim_chars(chars.as_slice());
                let v = to_chars(self.value.as_str());
                !chars_equal(t.as_slice(), v.as_slice())
            },
            None => true,
        }
    }
}

} // verus!
