//! The entry model: one child of a listed directory, the raw data it is
//! resolved from, and the classified per-entry errors.

use vstd::prelude::*;
use vstd::string::StringExecFns;

verus! {

/// Seconds since the Unix epoch at which the year 10000 begins. HTTP-dates
/// carry a four-digit year, so modification times must lie below this bound.
pub const HTTP_DATE_SECS_LIMIT: u64 = 253402300800;

/// The HTTP-date (RFC 7231 IMF-fixdate) rendering of a time given as seconds
/// since the Unix epoch. The rendering depends on the seconds alone.
pub uninterp spec fn http_date_of(secs: u64) -> Seq<char>;

/// Relies on httpdate::fmt_http_date: formats a point in time as an
/// IMF-fixdate string, always 29 characters. It panics from the year 10000
/// on, hence the bound demanded of every caller.
#[verifier::external_body]
pub(crate) fn http_date(secs: u64) -> (r: String)
    requires
        secs < HTTP_DATE_SECS_LIMIT,
    ensures
        r@ == http_date_of(secs),
        r@.len() == 29,
{
    let t = std::time::UNIX_EPOCH + std::time::Duration::from_secs(secs);
    httpdate::fmt_http_date(t)
}

/// Ghost model of one listing entry: the variant tag, the base name, the
/// modification time already rendered as an HTTP-date, and, for files, the
/// size in bytes.
pub enum EntryModel {
    Directory { mtime: Seq<char>, name: Seq<char> },
    File { mtime: Seq<char>, name: Seq<char>, size: u64 },
}

/// One child of a listed directory. `name` is the filesystem base name,
/// `mtime` its last-modification time as an HTTP-date, and `size` the byte
/// length of a regular file's content at scan time.
#[derive(Debug)]
pub enum ExplorerEntry {
    Directory { mtime: String, name: String },
    File { mtime: String, name: String, size: u64 },
}

impl View for ExplorerEntry {
    type V = EntryModel;

    open spec fn view(&self) -> EntryModel {
        match self {
            ExplorerEntry::Directory { mtime, name } => EntryModel::Directory {
                mtime: mtime@,
                name: name@,
            },
            ExplorerEntry::File { mtime, name, size } => EntryModel::File {
                mtime: mtime@,
                name: name@,
                size: *size,
            },
        }
    }
}

impl PartialEq for ExplorerEntry {
    fn eq(&self, other: &Self) -> (r: bool) {
        match (self, other) {
            (
                ExplorerEntry::Directory { mtime: ma, name: na },
                ExplorerEntry::Directory { mtime: mb, name: nb },
            ) => *ma == *mb && *na == *nb,
            (
                ExplorerEntry::File { mtime: ma, name: na, size: sa },
                ExplorerEntry::File { mtime: mb, name: nb, size: sb },
            ) => *ma == *mb && *na == *nb && *sa == *sb,
            _ => false,
        }
    }
}

impl vstd::std_specs::cmp::PartialEqSpecImpl for ExplorerEntry {
    open spec fn obeys_eq_spec() -> bool {
        true
    }

    open spec fn eq_spec(&self, other: &Self) -> bool {
        self@ == other@
    }
}

impl Eq for ExplorerEntry {

}

/// Ghost model of an `ExplorerError`.
pub enum ErrorModel {
    MissingSymlinkTarget { path: Seq<char> },
    InvalidFileName { path: Seq<char> },
    Metadata { detail: Seq<char> },
}

/// A classified per-entry resolution failure. Only `MissingSymlinkTarget` may
/// be swallowed by a scan; the other kinds abort it.
#[derive(Debug)]
pub enum ExplorerError {
    /// The entry is (or resolves through) a symlink whose target is gone.
    MissingSymlinkTarget(String),
    /// The entry's raw name is not representable as text.
    InvalidFileName(String),
    /// Any other failure fetching the entry's metadata.
    Metadata(String),
}

impl View for ExplorerError {
    type V = ErrorModel;

    open spec fn view(&self) -> ErrorModel {
        match self {
            ExplorerError::MissingSymlinkTarget(p) => ErrorModel::MissingSymlinkTarget {
                path: p@,
            },
            ExplorerError::InvalidFileName(p) => ErrorModel::InvalidFileName { path: p@ },
            ExplorerError::Metadata(d) => ErrorModel::Metadata { detail: d@ },
        }
    }
}

impl ExplorerError {
    /// A short description of the failure, for logs and error reports.
    pub fn describe(&self) -> (r: String)
        ensures
            self@ is MissingSymlinkTarget ==> r@ == "Symlink to a non-existent target: "@
                + self@->MissingSymlinkTarget_path,
            self@ is InvalidFileName ==> r@ == "Invalid file name: "@
                + self@->InvalidFileName_path,
            self@ is Metadata ==> r@ == "Metadata failure: "@ + self@->Metadata_detail,
    {
        match self {
            ExplorerError::MissingSymlinkTarget(p) => {
                let mut s = String::new();
                s.append("Symlink to a non-existent target: ");
                s.append(p.as_str());
                s
            },
            ExplorerError::InvalidFileName(p) => {
                let mut s = String::new();
                s.append("Invalid file name: ");
                s.append(p.as_str());
                s
            },
            ExplorerError::Metadata(d) => {
                let mut s = String::new();
                s.append("Metadata failure: ");
                s.append(d.as_str());
                s
            },
        }
    }
}

/// Ghost model of a `MetaOutcome`.
pub enum MetaModel {
    Found { is_dir: bool, size: u64, mtime_secs: u64 },
    TargetMissing,
    Failed { detail: Seq<char> },
}

/// The outcome of fetching one child's metadata (following symlinks), as the
/// filesystem boundary reports it to the engine.
pub enum MetaOutcome {
    /// Metadata was fetched: the classification bit, the byte length, and the
    /// modification time in seconds since the Unix epoch.
    Found { is_dir: bool, size: u64, mtime_secs: u64 },
    /// Metadata could not be fetched because the entry is (or resolves
    /// through) a symlink whose target does not exist.
    TargetMissing,
    /// Metadata could not be fetched for any other reason.
    Failed { detail: String },
}

impl View for MetaOutcome {
    type V = MetaModel;

    open spec fn view(&self) -> MetaModel {
        match self {
            MetaOutcome::Found { is_dir, size, mtime_secs } => MetaModel::Found {
                is_dir: *is_dir,
                size: *size,
                mtime_secs: *mtime_secs,
            },
            MetaOutcome::TargetMissing => MetaModel::TargetMissing,
            MetaOutcome::Failed { detail } => MetaModel::Failed { detail: detail@ },
        }
    }
}

/// Ghost model of a `RawEntry`.
pub struct RawModel {
    pub name: Option<Seq<char>>,
    pub path: Seq<char>,
    pub meta: MetaModel,
}

/// One raw directory child as handed to the engine: its base name when it is
/// representable as text, a textual rendering of its path for error reports,
/// and the outcome of fetching its metadata.
pub struct RawEntry {
    /// The base name, or `None` when the raw name is not valid text.
    pub name: Option<String>,
    /// A textual rendering of the entry's path, used only in error reports.
    pub path: String,
    /// The outcome of the metadata fetch for this entry.
    pub meta: MetaOutcome,
}

impl View for RawEntry {
    type V = RawModel;

    open spec fn view(&self) -> RawModel {
        RawModel {
            name: match &self.name {
                Some(n) => Some(n@),
                None => None,
            },
            path: self.path@,
            meta: self.meta@,
        }
    }
}

/// Whether every metadata outcome in `rs` carries a modification time that an
/// HTTP-date can render (a four-digit year).
pub open spec fn mtimes_in_range(rs: Seq<RawModel>) -> bool {
    forall|i: int|
        0 <= i < rs.len() ==> (#[trigger] rs[i].meta matches MetaModel::Found { mtime_secs, .. }
            ==> mtime_secs < HTTP_DATE_SECS_LIMIT)
}

/// What resolving one raw child yields: the entry itself, or the classified
/// failure. A missing symlink target and a generic metadata failure win over
/// an invalid name, which is checked only once metadata is at hand.
pub open spec fn resolve_model(r: RawModel) -> Result<EntryModel, ErrorModel> {
    match r.meta {
        MetaModel::TargetMissing => Err(ErrorModel::MissingSymlinkTarget { path: r.path }),
        MetaModel::Failed { detail } => Err(ErrorModel::Metadata { detail }),
        MetaModel::Found { is_dir, size, mtime_secs } => match r.name {
            None => Err(ErrorModel::InvalidFileName { path: r.path }),
            Some(n) => Ok(
                if is_dir {
                    EntryModel::Directory { mtime: http_date_of(mtime_secs), name: n }
                } else {
                    EntryModel::File { mtime: http_date_of(mtime_secs), name: n, size }
                },
            ),
        },
    }
}

/// The ghost image of a resolution result.
pub open spec fn result_model(r: Result<ExplorerEntry, ExplorerError>) -> Result<
    EntryModel,
    ErrorModel,
> {
    match r {
        Ok(e) => Ok(e@),
        Err(e) => Err(e@),
    }
}

impl ExplorerEntry {
    /// Resolve one raw directory child into a listing entry, or fail with the
    /// classified error that `resolve_model` describes.
    pub fn new(raw: RawEntry) -> (res: Result<ExplorerEntry, ExplorerError>)
        requires
            raw@.meta matches MetaModel::Found { mtime_secs, .. } ==> mtime_secs
                < HTTP_DATE_SECS_LIMIT,
        ensures
            result_model(res) == resolve_model(raw@),
    {
        match raw.meta {
            MetaOutcome::TargetMissing => Err(ExplorerError::MissingSymlinkTarget(raw.path)),
            MetaOutcome::Failed { detail } => Err(ExplorerError::Metadata(detail)),
            MetaOutcome::Found { is_dir, size, mtime_secs } => match raw.name {
                None => Err(ExplorerError::InvalidFileName(raw.path)),
                Some(name) => {
                    let mtime = http_date(mtime_secs);
                    if is_dir {
                        Ok(ExplorerEntry::Directory { mtime, name })
                    } else {
                        Ok(ExplorerEntry::File { mtime, name, size })
                    }
                },
            },
        }
    }

    /// Whether this entry is the `Directory` variant.
    pub fn is_directory(&self) -> (r: bool)
        ensures
            r == self@ is Directory,
    {
        match self {
            ExplorerEntry::Directory { .. } => true,
            ExplorerEntry::File { .. } => false,
        }
    }
}

} // verus!
