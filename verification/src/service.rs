//! The scanner and the request orchestrator: resolve a directory's raw
//! children tolerating stale symlinks, sort, serialize, and map the outcome
//! to the three response classes the HTTP boundary understands.

use crate::explorer::{
    resolve_model, result_model, EntryModel, ErrorModel, ExplorerEntry, ExplorerError, MetaModel,
    RawEntry, RawModel,
};
use crate::json::{json_of, serialize_entries};
use crate::sort::{models, sort_entries, sorted};
use vstd::prelude::*;
use vstd::string::{StrSliceExecFns, StringExecFns};

verus! {

/// Whether a resolved absolute path lies within the configured root: it is
/// the root itself, or extends it at a component boundary. Both sides are
/// expected in canonical form (no `.` or `..` segments), which the caller
/// obtains from the filesystem before asking.
pub open spec fn within_root(root: Seq<char>, path: Seq<char>) -> bool {
    ||| path == root
    ||| (path.len() > root.len() && path.take(root.len() as int) == root && ((root.len() > 0
        && root.last() == '/') || path[root.len() as int] == '/'))
}

/// Decide whether a canonical path lies within the canonical root, so that a
/// request can never climb out of the served directory.
pub fn path_within_root(root: &str, path: &str) -> (r: bool)
    ensures
        r == within_root(root@, path@),
{
    let root_len = root.unicode_len();
    let path_len = path.unicode_len();
    if path_len < root_len {
        proof {
            assert(path@ != root@);
        }
        return false;
    }
    let mut i: usize = 0;
    while i < root_len
        invariant
            i <= root_len == root@.len(),
            root@.len() <= path_len == path@.len(),
            forall|k: int| 0 <= k < i ==> root@[k] == path@[k],
        decreases root_len - i,
    {
        if root.get_char(i) != path.get_char(i) {
            proof {
                assert(path@ != root@);
                assert(path@.take(root@.len() as int)[i as int] != root@[i as int]);
            }
            return false;
        }
        i = i + 1;
    }
    proof {
        assert(path@.take(root@.len() as int) =~= root@);
    }
    if path_len == root_len {
        proof {
            assert(path@ =~= root@);
        }
        return true;
    }
    if root_len > 0 && root.get_char(root_len - 1) == '/' {
        return true;
    }
    path.get_char(root_len) == '/'
}

/// Whether resolving `r` fails the whole scan: any failure except a missing
/// symlink target.
pub open spec fn is_fatal(r: RawModel) -> bool {
    match resolve_model(r) {
        Ok(_) => false,
        Err(e) => !(e is MissingSymlinkTarget),
    }
}

/// The error that aborts a scan of `rs`: the first fatal resolution failure,
/// if any.
pub open spec fn first_fatal(rs: Seq<RawModel>) -> Option<ErrorModel>
    decreases rs.len(),
{
    if rs.len() == 0 {
        None
    } else if is_fatal(rs[0]) {
        Some(resolve_model(rs[0])->Err_0)
    } else {
        first_fatal(rs.skip(1))
    }
}

/// The entries a scan of `rs` keeps: every successful resolution, in input
/// order.
pub open spec fn kept(rs: Seq<RawModel>) -> Seq<EntryModel>
    decreases rs.len(),
{
    if rs.len() == 0 {
        Seq::empty()
    } else {
        let rest = kept(rs.skip(1));
        match resolve_model(rs[0]) {
            Ok(e) => seq![e] + rest,
            Err(_) => rest,
        }
    }
}

/// The paths a scan of `rs` drops because their symlink target is missing, in
/// input order.
pub open spec fn dropped(rs: Seq<RawModel>) -> Seq<Seq<char>>
    decreases rs.len(),
{
    if rs.len() == 0 {
        Seq::empty()
    } else {
        let rest = dropped(rs.skip(1));
        match resolve_model(rs[0]) {
            Err(ErrorModel::MissingSymlinkTarget { path }) => seq![path] + rest,
            _ => rest,
        }
    }
}

/// The ghost image of a sequence of strings.
pub open spec fn string_views(s: Seq<String>) -> Seq<Seq<char>> {
    s.map_values(|p: String| p@)
}

/// The ghost image of a sequence of raw children.
pub open spec fn raw_models(s: Seq<RawEntry>) -> Seq<RawModel> {
    s.map_values(|r: RawEntry| r@)
}

/// Whether every raw child carries a modification time an HTTP-date can
/// render; resolution is only defined up to the year 9999.
pub open spec fn scan_in_range(rs: Seq<RawModel>) -> bool {
    crate::explorer::mtimes_in_range(rs)
}

/// Resolve every raw child. A child whose symlink target is missing is
/// dropped (its path reported for the log); the first fatal failure aborts
/// the scan. The kept entries come back in input order: the caller sorts.
#[verifier::loop_isolation(false)]
pub fn scan_entries(raws: Vec<RawEntry>) -> (res: Result<
    (Vec<ExplorerEntry>, Vec<String>),
    ExplorerError,
>)
    requires
        scan_in_range(raw_models(raws@)),
    ensures
        match res {
            Ok((entries, skipped)) => first_fatal(raw_models(raws@)) is None && models(entries@)
                == kept(raw_models(raws@)) && string_views(skipped@) == dropped(raw_models(raws@)),
            Err(e) => first_fatal(raw_models(raws@)) == Some(e@),
        },
{
    let ghost rs = raw_models(raws@);
    let mut rest = raws;
    let mut entries: Vec<ExplorerEntry> = Vec::new();
    let mut skipped: Vec<String> = Vec::new();
    proof {
        assert(models(entries@) =~= Seq::<EntryModel>::empty());
        assert(string_views(skipped@) =~= Seq::<Seq<char>>::empty());
        assert(kept(rs) =~= models(entries@) + kept(raw_models(rest@)));
        assert(dropped(rs) =~= string_views(skipped@) + dropped(raw_models(rest@)));
    }
    while rest.len() > 0
        invariant
            scan_in_range(raw_models(rest@)),
            kept(rs) == models(entries@) + kept(raw_models(rest@)),
            dropped(rs) == string_views(skipped@) + dropped(raw_models(rest@)),
            first_fatal(rs) == first_fatal(raw_models(rest@)),
        decreases rest.len(),
    {
        let ghost rrs = raw_models(rest@);
        let raw = rest.remove(0);
        proof {
            assert(raw@ == rrs[0]);
            assert(raw_models(rest@) =~= rrs.skip(1));
            assert(rrs[0].meta matches MetaModel::Found { mtime_secs, .. } ==> mtime_secs
                < crate::explorer::HTTP_DATE_SECS_LIMIT);
            assert forall|k: int| 0 <= k < rrs.skip(1).len() implies (
            #[trigger] rrs.skip(1)[k].meta matches MetaModel::Found { mtime_secs, .. }
                ==> mtime_secs < crate::explorer::HTTP_DATE_SECS_LIMIT) by {
                assert(rrs.skip(1)[k] == rrs[k + 1]);
            }
        }
        let ghost entries_before = entries@;
        let ghost skipped_before = skipped@;
        match ExplorerEntry::new(raw) {
            Ok(e) => {
                entries.push(e);
                proof {
                    assert(resolve_model(rrs[0]) == Ok::<EntryModel, ErrorModel>(e@));
                    assert(models(entries@) =~= models(entries_before).push(e@));
                    assert(kept(rrs) =~= seq![e@] + kept(rrs.skip(1)));
                    assert(models(entries@) + kept(rrs.skip(1)) =~= models(entries_before) + kept(
                        rrs,
                    ));
                    assert(dropped(rrs) =~= dropped(rrs.skip(1)));
                }
            },
            Err(ExplorerError::MissingSymlinkTarget(p)) => {
                skipped.push(p);
                proof {
                    assert(resolve_model(rrs[0]) matches Err(e) && e is MissingSymlinkTarget);
                    assert(string_views(skipped@) =~= string_views(skipped_before).push(p@));
                    assert(dropped(rrs) =~= seq![p@] + dropped(rrs.skip(1)));
                    assert(string_views(skipped@) + dropped(rrs.skip(1)) =~= string_views(
                        skipped_before,
                    ) + dropped(rrs));
                    assert(kept(rrs) =~= kept(rrs.skip(1)));
                }
            },
            Err(err) => {
                proof {
                    assert(resolve_model(rrs[0]) == Err::<EntryModel, ErrorModel>(err@));
                    assert(!(err@ is MissingSymlinkTarget));
                    assert(is_fatal(rrs[0]));
                    assert(rrs.len() > 0);
                    assert(first_fatal(rrs) == Some(err@));
                    assert(first_fatal(rs) == Some(err@));
                }
                return Err(err);
            },
        }
    }
    proof {
        assert(raw_models(rest@).len() == 0);
        assert(kept(rs) =~= models(entries@));
        assert(dropped(rs) =~= string_views(skipped@));
    }
    Ok((entries, skipped))
}

/// Ghost model of a `DirLookup`.
pub enum LookupModel {
    Missing,
    NotDirectory,
    Children(Seq<RawModel>),
}

/// How the requested path classified, as the filesystem boundary reports it:
/// nothing on disk, a non-directory, or a directory with its raw children.
pub enum DirLookup {
    /// The resolved path does not exist.
    Missing,
    /// The resolved path exists but is not a directory.
    NotDirectory,
    /// The resolved path is a directory; these are its immediate children.
    Children(Vec<RawEntry>),
}

impl View for DirLookup {
    type V = LookupModel;

    open spec fn view(&self) -> LookupModel {
        match self {
            DirLookup::Missing => LookupModel::Missing,
            DirLookup::NotDirectory => LookupModel::NotDirectory,
            DirLookup::Children(raws) => LookupModel::Children(raw_models(raws@)),
        }
    }
}

/// Ghost model of a `QueryResult`.
pub enum QueryModel {
    Success(Seq<char>),
    PathNotFound,
    NotDirectory,
}

/// The client-visible outcome of one query: the serialized listing, or one of
/// the two recovered path failures.
pub enum QueryResult {
    Success(String),
    PathNotFound,
    NotDirectory,
}

impl View for QueryResult {
    type V = QueryModel;

    open spec fn view(&self) -> QueryModel {
        match self {
            QueryResult::Success(body) => QueryModel::Success(body@),
            QueryResult::PathNotFound => QueryModel::PathNotFound,
            QueryResult::NotDirectory => QueryModel::NotDirectory,
        }
    }
}

/// The outcome of one query, together with what the boundary logs: the paths
/// dropped for a missing symlink target, and how many entries were listed.
pub struct QueryReport {
    /// The client-visible outcome.
    pub result: QueryResult,
    /// The paths of children dropped because their symlink target is gone.
    pub skipped: Vec<String>,
    /// How many entries the listing holds.
    pub entry_count: usize,
}

/// Answer one request: classify the path's lookup, and for a listable
/// directory run the scan, the sort and the serializer as one pipeline. A
/// fatal scan failure propagates; a missing path or a non-directory is a
/// recovered outcome, never an error.
pub fn query_directory(lookup: DirLookup) -> (res: Result<QueryReport, ExplorerError>)
    requires
        lookup@ matches LookupModel::Children(rs) ==> scan_in_range(rs),
    ensures
        lookup@ is Missing ==> (res matches Ok(rep) && rep.result@ is PathNotFound
            && rep.skipped@.len() == 0 && rep.entry_count == 0),
        lookup@ is NotDirectory ==> (res matches Ok(rep) && rep.result@ is NotDirectory
            && rep.skipped@.len() == 0 && rep.entry_count == 0),
        lookup@ matches LookupModel::Children(rs) ==> match res {
            Ok(rep) => first_fatal(rs) is None && (rep.result@ matches QueryModel::Success(body)
                && exists|perm: Seq<EntryModel>|
                (#[trigger] perm.to_multiset()) == kept(rs).to_multiset() && sorted(perm) && body
                    == json_of(perm)) && string_views(rep.skipped@) == dropped(rs)
                && rep.entry_count == kept(rs).len(),
            Err(e) => first_fatal(rs) == Some(e@),
        },
{
    match lookup {
        DirLookup::Missing => Ok(
            QueryReport { result: QueryResult::PathNotFound, skipped: Vec::new(), entry_count: 0 },
        ),
        DirLookup::NotDirectory => Ok(
            QueryReport { result: QueryResult::NotDirectory, skipped: Vec::new(), entry_count: 0 },
        ),
        DirLookup::Children(raws) => {
            let ghost rs = raw_models(raws@);
            match scan_entries(raws) {
                Err(e) => Err(e),
                Ok((entries, skipped)) => {
                    let mut entries = entries;
                    let entry_count = entries.len();
                    sort_entries(&mut entries);
                    let body = serialize_entries(&entries);
                    proof {
                        let perm = models(entries@);
                        assert(perm.to_multiset() == kept(rs).to_multiset());
                        assert(sorted(perm) && body@ == json_of(perm));
                    }
                    Ok(
                        QueryReport {
                            result: QueryResult::Success(body),
                            skipped,
                            entry_count,
                        },
                    )
                },
            }
        },
    }
}

impl QueryResult {
    /// The HTTP status and body this outcome maps to: the listing with `200`,
    /// or the fixed text of the two recovered failures with `404` or `400`.
    pub fn response(&self) -> (r: (u16, String))
        ensures
            self@ matches QueryModel::Success(body) ==> r.0 == 200 && r.1@ == body,
            self@ is PathNotFound ==> r.0 == 404 && r.1@ == "Path not found!"@,
            self@ is NotDirectory ==> r.0 == 400 && r.1@ == "Not a directory!"@,
    {
        match self {
            QueryResult::Success(body) => (200, body.clone()),
            QueryResult::PathNotFound => (404, String::from_str("Path not found!")),
            QueryResult::NotDirectory => (400, String::from_str("Not a directory!")),
        }
    }
}

} // verus!
