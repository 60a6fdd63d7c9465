//! Normalization of backend records into listing entries.

use vstd::prelude::*;

use crate::attributes::{attributes_of, permissions_to_string, Permissions, FDIR, FMT};
use crate::escape::{escaped, percent_encode};
use crate::model::{Entry, FileInfo};
use crate::navigator::{components, directory_key, split_components, SEPARATOR};
use crate::text::{chars_of, find_last, last_index_of, opt_str, text_between};

verus! {

/// The storage kinds that answer listing requests.
#[derive(Clone, Copy, Debug, PartialEq, Eq, Structural)]
pub enum Backend {
    /// The filesystem of the host.
    Local,
    /// A remote filesystem behind an SFTP session.
    Sftp,
    /// A flat object store: containers that hold keyed objects.
    ObjectStore,
}

/// What a backend has read about one file or directory. A field that could
/// not be read is `None` (or `Permissions::Unknown`).
#[derive(Clone, Copy, Debug)]
pub struct Stat {
    pub is_directory: bool,
    /// Size in bytes.
    pub size: Option<u64>,
    /// Modification time in milliseconds since the epoch.
    pub modified: Option<u128>,
    pub permissions: Permissions,
}

/// What an attribute block of the SFTP protocol says. The file is a
/// directory where the permissions are present and their file-type bits
/// say so; the modification time comes in seconds.
pub open spec fn stat_of_attributes(size: Option<u64>, mtime: Option<u64>, perm: Option<u32>) -> Stat {
    Stat {
        is_directory: match perm {
            Some(mode) => mode & FMT == FDIR,
            None => false,
        },
        size,
        modified: match mtime {
            Some(seconds) => Some((seconds * 1000) as u128),
            None => None,
        },
        permissions: match perm {
            Some(mode) => Permissions::Posix(mode),
            None => Permissions::Unknown,
        },
    }
}

impl Stat {
    /// Reads an attribute block of the SFTP protocol: size in bytes,
    /// modification time in seconds, POSIX mode.
    pub fn from_attributes(size: Option<u64>, mtime: Option<u64>, perm: Option<u32>) -> (out: Stat)
        ensures
            out == stat_of_attributes(size, mtime, perm),
    {
        Stat {
            is_directory: match perm {
                Some(mode) => mode & FMT == FDIR,
                None => false,
            },
            size,
            modified: match mtime {
                Some(seconds) => {
                    let seconds: u128 = seconds as u128;
                    Some(seconds * 1000)
                },
                None => None,
            },
            permissions: match perm {
                Some(mode) => Permissions::Posix(mode),
                None => Permissions::Unknown,
            },
        }
    }
}

/// One child as the backend hands it over: its path, and what could be read
/// about it. A child without `stat` could not be read at all.
#[derive(Debug)]
pub struct Record {
    pub path: String,
    pub stat: Option<Stat>,
}

/// A path that ends in a name of its own: it has a last component, and
/// that is not `..`.
pub open spec fn is_named(path: Seq<char>) -> bool {
    components(path).len() > 0 && components(path).last() != ".."@
}

impl Record {
    /// A record as a backend hands it over for a child: its path ends in
    /// the child's name.
    pub open spec fn wf(&self) -> bool {
        is_named(self.path@)
    }
}

/// The last component of `path`, or `..` where the path has none or ends
/// in `..`.
pub open spec fn base_name(path: Seq<char>) -> Seq<char> {
    let named = components(path);
    if named.len() > 0 && named.last() != ".."@ {
        named.last()
    } else {
        ".."@
    }
}

/// True when `base` splits into a name and an extension: it is not `..`
/// and its last dot is not its first character.
pub open spec fn has_extension(base: Seq<char>) -> bool {
    base != ".."@ && (last_index_of(base, '.') matches Some(k) && k > 0)
}

/// The part of `base` before its last dot, or all of it where it does not
/// split.
pub open spec fn stem_of(base: Seq<char>) -> Seq<char> {
    if has_extension(base) {
        base.take(last_index_of(base, '.').unwrap())
    } else {
        base
    }
}

/// The part of `base` behind its last dot; empty where it does not split.
pub open spec fn extension_of(base: Seq<char>) -> Seq<char> {
    if has_extension(base) {
        base.skip(last_index_of(base, '.').unwrap() + 1)
    } else {
        Seq::empty()
    }
}

/// The icon name of a directory or of a file.
pub open spec fn kind_word(is_directory: bool) -> Seq<char> {
    if is_directory {
        "folder"@
    } else {
        "file"@
    }
}

/// The icon hint of an entry. The local backend names the kind and the
/// percent-encoded path, so that the icon can be looked up from the file
/// itself; the others name a bundled icon.
pub open spec fn icon_of(backend: Backend, path: Seq<char>, is_directory: bool) -> Seq<char> {
    match backend {
        Backend::Local => kind_word(is_directory) + "?path="@ + escaped(path),
        Backend::Sftp => kind_word(is_directory),
        Backend::ObjectStore => if is_directory {
            "bucket"@
        } else {
            "object"@
        },
    }
}

/// The alternative icon of an entry.
pub open spec fn icon_alt_of(backend: Backend, is_directory: bool) -> Option<Seq<char>> {
    match backend {
        Backend::Local => Some(kind_word(is_directory)),
        _ => None,
    }
}

/// How the icon of an entry is looked up.
pub open spec fn icon_type_of(backend: Backend) -> Seq<char> {
    match backend {
        Backend::ObjectStore => Seq::empty(),
        _ => "file"@,
    }
}

/// The entry that stands for a record.
///
/// With an override the entry is named by it, key and name alike. Without
/// one the name comes from the path: a directory keeps its base name and
/// gets the separator behind its key; a file's key is its base name, which
/// splits into name and extension at the last dot. A directory has size
/// zero; what could not be read is zero, and `-` for the attributes. The
/// entry is active when it is a directory and its key is the active key.
pub open spec fn entry_of(
    backend: Backend,
    path: Seq<char>,
    stat: Stat,
    override_name: Option<Seq<char>>,
    active_key: Option<Seq<char>>,
) -> Entry {
    let base = match override_name {
        Some(name) => name,
        None => base_name(path),
    };
    let splits = override_name is None && !stat.is_directory;
    let key = if override_name is None && stat.is_directory {
        directory_key(base)
    } else {
        base
    };
    Entry {
        key,
        is_directory: stat.is_directory,
        icon: icon_of(backend, path, stat.is_directory),
        icon_alt: icon_alt_of(backend, stat.is_directory),
        icon_type: icon_type_of(backend),
        name: if splits {
            stem_of(base)
        } else {
            base
        },
        extension: if splits {
            extension_of(base)
        } else {
            Seq::empty()
        },
        size: match stat.size {
            Some(size) if !stat.is_directory => size,
            _ => 0,
        },
        date: match stat.modified {
            Some(modified) => modified,
            None => 0,
        },
        attributes: attributes_of(stat.permissions),
        is_active: stat.is_directory && active_key == Some(key),
    }
}

/// The last component of `path`, or `..`.
pub fn base_name_of(path: &str) -> (out: String)
    ensures
        out@ == base_name(path@),
{
    let up = "..".to_owned();
    let mut named = split_components(path);
    match named.pop() {
        Some(last) => if last == up {
            up
        } else {
            last
        },
        None => up,
    }
}

/// Splits a base name into name and extension.
pub fn split_name(base: &str) -> (out: (String, String))
    ensures
        out.0@ == stem_of(base@),
        out.1@ == extension_of(base@),
{
    let chars = chars_of(base);
    let whole = base.to_owned();
    if whole == "..".to_owned() {
        return (whole, String::new());
    }
    match find_last(&chars, '.') {
        Some(k) if k > 0 => {
            let stem = text_between(&chars, 0, k);
            let extension = text_between(&chars, k + 1, chars.len());
            (stem, extension)
        },
        _ => (whole, String::new()),
    }
}

fn kind_text(is_directory: bool) -> (out: String)
    ensures
        out@ == kind_word(is_directory),
{
    if is_directory {
        "folder".to_owned()
    } else {
        "file".to_owned()
    }
}

fn icon_text(backend: Backend, path: &str, is_directory: bool) -> (out: String)
    ensures
        out@ == icon_of(backend, path@, is_directory),
{
    match backend {
        Backend::Local => {
            let mut out = kind_text(is_directory);
            out.append("?path=");
            let encoded = percent_encode(path);
            out.append(encoded.as_str());
            out
        },
        Backend::Sftp => kind_text(is_directory),
        Backend::ObjectStore => if is_directory {
            "bucket".to_owned()
        } else {
            "object".to_owned()
        },
    }
}

/// Normalizes one record into a listing entry.
pub fn normalize(
    backend: Backend,
    path: &str,
    stat: &Stat,
    override_name: Option<&str>,
    active_key: Option<&str>,
) -> (out: FileInfo)
    ensures
        out@ == entry_of(backend, path@, *stat, opt_str(override_name), opt_str(active_key)),
{
    let is_directory = stat.is_directory;
    let base = match override_name {
        Some(name) => name.to_owned(),
        None => base_name_of(path),
    };
    let splits = override_name.is_none() && !is_directory;
    let (name, extension) = if splits {
        split_name(base.as_str())
    } else {
        (base.clone(), String::new())
    };
    let mut key = base;
    if override_name.is_none() && is_directory {
        key.push(SEPARATOR);
    }
    let is_active = match active_key {
        Some(active) => is_directory && active.to_owned() == key,
        None => false,
    };
    let icon_alt = match backend {
        Backend::Local => Some(kind_text(is_directory)),
        _ => None,
    };
    let icon_type = match backend {
        Backend::ObjectStore => String::new(),
        _ => "file".to_owned(),
    };
    FileInfo {
        key,
        is_directory,
        icon: icon_text(backend, path, is_directory),
        icon_alt,
        icon_type,
        name,
        extension,
        size: match stat.size {
            Some(size) if !is_directory => size,
            _ => 0,
        },
        date: match stat.modified {
            Some(modified) => modified,
            None => 0,
        },
        attributes: permissions_to_string(&stat.permissions),
        is_active,
    }
}

} // verus!
