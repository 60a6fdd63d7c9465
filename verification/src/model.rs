//! The messages of the listing protocol and their mathematical views.

use vstd::prelude::*;

verus! {

/// Asks for the entries of one directory.
#[derive(Debug)]
pub struct ListRequest {
    /// Directory path; the root where absent.
    pub path: Option<String>,
    /// One segment to descend into, or `..` to ascend.
    pub key: Option<String>,
}

/// Asks for the contents of one file.
#[derive(Debug)]
pub struct ReadRequest {
    /// Directory path.
    pub path: Option<String>,
    /// Key of the file within the directory.
    pub key: Option<String>,
}

/// A request as it arrives on the wire.
#[derive(Debug)]
pub enum Request {
    /// Retrieve all entries of a directory.
    List(ListRequest),
    /// Gets the entry with a given key in a directory.
    Join { path: String, key: String },
    /// Creates a directory.
    Create {  },
    /// Reads the entire contents of a file.
    Read(ReadRequest),
    /// Writes data to a file, replacing its entire contents.
    Write {  },
    /// Copies a file or directory.
    Copy {  },
    /// Renames a file or directory.
    Rename {  },
    /// Deletes a file or directory.
    Delete {  },
}

/// One entry of a listing.
#[derive(Debug)]
pub struct FileInfo {
    /// Identifies the entry among its siblings; a directory's key ends with
    /// the separator.
    pub key: String,
    /// Indicates whether it is a directory.
    pub is_directory: bool,
    /// String identifying an icon. The value depends on the icon type.
    pub icon: String,
    /// String identifying an alternative icon.
    pub icon_alt: Option<String>,
    /// How the icon is to be looked up.
    pub icon_type: String,
    /// Name shown to the user.
    pub name: String,
    /// Extension; empty for directories.
    pub extension: String,
    /// Size in bytes; zero for directories or when unknown.
    pub size: u64,
    /// Modification time in milliseconds since the epoch; zero when unknown.
    pub date: u128,
    /// Attribute text.
    pub attributes: String,
    /// True for the directory that the navigation has just left.
    pub is_active: bool,
}

/// The answer to a `ListRequest`.
#[derive(Debug)]
pub struct ListResponse {
    /// Canonical path of the listed directory.
    pub path: String,
    /// Display name of the listed directory.
    pub name: String,
    /// The parent entry, where there is one, then the children.
    pub files: Vec<FileInfo>,
}

/// A response as it leaves on the wire.
#[derive(Debug)]
pub enum Response {
    List(ListResponse),
}

/// What a backend process announces to its parent once it listens.
#[derive(Clone, Copy, Debug)]
pub struct StartupResponse {
    pub port: u16,
}

/// The view of an optional string.
pub open spec fn opt_text(s: Option<String>) -> Option<Seq<char>> {
    match s {
        Some(s) => Some(s@),
        None => None,
    }
}

/// A listing entry as plain mathematical data.
pub struct Entry {
    pub key: Seq<char>,
    pub is_directory: bool,
    pub icon: Seq<char>,
    pub icon_alt: Option<Seq<char>>,
    pub icon_type: Seq<char>,
    pub name: Seq<char>,
    pub extension: Seq<char>,
    pub size: u64,
    pub date: u128,
    pub attributes: Seq<char>,
    pub is_active: bool,
}

impl View for FileInfo {
    type V = Entry;

    open spec fn view(&self) -> Entry {
        Entry {
            key: self.key@,
            is_directory: self.is_directory,
            icon: self.icon@,
            icon_alt: opt_text(self.icon_alt),
            icon_type: self.icon_type@,
            name: self.name@,
            extension: self.extension@,
            size: self.size,
            date: self.date,
            attributes: self.attributes@,
            is_active: self.is_active,
        }
    }
}

/// The views of a sequence of entries.
pub open spec fn entries(files: Seq<FileInfo>) -> Seq<Entry> {
    files.map_values(|f: FileInfo| f@)
}

/// A listing as plain mathematical data.
pub struct Listing {
    pub path: Seq<char>,
    pub name: Seq<char>,
    pub files: Seq<Entry>,
}

impl View for ListResponse {
    type V = Listing;

    open spec fn view(&self) -> Listing {
        Listing { path: self.path@, name: self.name@, files: entries(self.files@) }
    }
}

} // verus!
