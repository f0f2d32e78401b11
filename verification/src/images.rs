//! Captured images: which files count as images, which orphaned images a
//! reviewed list selects for quarantine, the manifest that records each move,
//! and the decisions taken when a pending capture is cleaned up.
use vstd::prelude::*;
use vstd::string::*;
use crate::text::{
    after_last, ascii_lowercase, ascii_lowercase_exec, last_index_of,
    chars_equal_str, chars_of, lemma_filter_keeps, str_equal,
};

verus! {

// ---------------------------------------------------------------------
// Image files
// ---------------------------------------------------------------------

/// The file extensions of supported images, in lowercase.
pub open spec fn image_extensions() -> Seq<Seq<char>> {
    seq![
        "png"@,
        "jpg"@,
        "jpeg"@,
        "gif"@,
        "webp"@,
        "bmp"@,
        "tif"@,
        "tiff"@,
        "avif"@,
        "heic"@,
    ]
}

/// An extension names a supported image, whatever its ASCII case.
pub open spec fn supported_extension(ext: Option<Seq<char>>) -> bool {
    match ext {
        Some(e) => image_extensions().contains(ascii_lowercase(e)),
        None => false,
    }
}

/// Whether a file with extension `ext` is a supported image: png, jpg, jpeg,
/// gif, webp, bmp, tif, tiff, avif or heic, in any ASCII case.
pub fn is_supported_image_extension(ext: Option<&str>) -> (r: bool)
    ensures
        r == supported_extension(
            match ext {
                Some(e) => Some(e@),
                None => None,
            },
        ),
{
    let e = match ext {
        Some(e) => e,
        None => {
            return false;
        },
    };
    let ec = chars_of(e);
    let l = ascii_lowercase_exec(ec.as_slice());
    let names = ["png", "jpg", "jpeg", "gif", "webp", "bmp", "tif", "tiff", "avif", "heic"];
    let mut k: usize = 0;
    while k < 10
        invariant
            k <= 10,
            names@.len() == 10,
            l@ == ascii_lowercase(e@),
            ext == Some(e),
            forall|j: int| 0 <= j < 10 ==> (#[trigger] names@[j])@ == image_extensions()[j],
            forall|j: int| 0 <= j < k ==> image_extensions()[j] != l@,
        decreases 10 - k,
    {
        if chars_equal_str(l.as_slice(), names[k]) {
            assert(image_extensions()[k as int] == l@);
            assert(image_extensions().contains(l@));
            return true;
        }
        k += 1;
    }
    assert(!image_extensions().contains(l@));
    false
}

/// A path without `/`, `\\` or `:` has neither separators nor a drive
/// prefix on any platform: it is a single file name.
pub open spec fn is_plain_name(path: Seq<char>) -> bool {
    !path.contains('/') && !path.contains('\\') && !path.contains(':')
}

/// The extension of a file name as `Path::extension` documents it: none for
/// `..`, for a name without a `.`, or for a name whose only `.` is its first
/// character; otherwise what follows the last `.`.
pub open spec fn name_extension(name: Seq<char>) -> Option<Seq<char>> {
    if name == ".."@ {
        None
    } else {
        match last_index_of(name, '.') {
            Some(i) => if i == 0 {
                None
            } else {
                Some(name.skip(i + 1))
            },
            None => None,
        }
    }
}

/// A path separator on some platform.
pub open spec fn is_separator(c: char) -> bool {
    c == '/' || c == '\\'
}

/// The path starts like a Windows verbatim path (`\\?\`, written with
/// either separator), in which `/` is no separator.
pub open spec fn has_verbatim_prefix(path: Seq<char>) -> bool {
    path.len() >= 3 && is_separator(path[0]) && is_separator(path[1]) && path[2] == '?'
}

/// The file name of `path` where every platform reads the same one: the
/// whole path when it is a single plain name; the plain name after the last
/// `/` when that name is neither empty nor `.` and the path has no verbatim
/// prefix.
pub open spec fn plain_file_name(path: Seq<char>) -> Option<Seq<char>> {
    if is_plain_name(path) {
        Some(path)
    } else {
        let n = after_last(path, '/');
        if path.contains('/') && is_plain_name(n) && n.len() > 0 && n != "."@
            && !has_verbatim_prefix(path) {
            Some(n)
        } else {
            None
        }
    }
}

/// `Path::extension`: the extension of the path's file name, if it has one.
/// It is what follows a `.` in the path and holds no `.`; where the file
/// name is the same on every platform (`plain_file_name`), it is
/// `name_extension` of that name.  For other paths, which `.` it follows
/// depends on the platform's path syntax and is left unsaid.
#[verifier::external_body]
pub(crate) fn path_extension(path: &str) -> (r: Option<String>)
    ensures
        r matches Some(e) ==> extension_in(path@, e@),
        plain_file_name(path@) matches Some(n) ==> match r {
            Some(e) => name_extension(n) == Some(e@),
            None => name_extension(n) is None,
        },
{
    let ext = std::path::Path::new(path).extension()?;
    let text = ext.to_str()?;
    Some(text.to_string())
}

/// `e` follows a `.` in `path` and holds no `.`.
pub open spec fn extension_in(path: Seq<char>, e: Seq<char>) -> bool {
    &&& !e.contains('.')
    &&& exists|i: int|
        0 <= i && i + 1 + e.len() <= path.len() && path[i] == '.' && #[trigger] path.subrange(
            i + 1,
            i + 1 + e.len(),
        ) == e
}

/// Whether the file at `path` is a supported image by its extension: when
/// it is, the path has a supported extension after a `.`; where the file
/// name is the same on every platform, exactly when that name's extension
/// is supported.
pub fn is_supported_image(path: &str) -> (r: bool)
    ensures
        r ==> exists|e: Seq<char>| supported_extension(Some(e)) && #[trigger] extension_in(path@, e),
        plain_file_name(path@) matches Some(n) ==> r == supported_extension(name_extension(n)),
{
    match path_extension(path) {
        Some(e) => is_supported_image_extension(Some(e.as_str())),
        None => false,
    }
}

// ---------------------------------------------------------------------
// Orphaned images
// ---------------------------------------------------------------------

/// An image file that no captured item refers to.
#[derive(Debug, Clone, PartialEq, Eq)]
pub struct OrphanCandidate {
    pub path: String,
    pub size: u64,
    pub kind: String,
}

/// The orphaned images found, in path order, with their total size.
#[derive(Debug)]
pub struct OrphanScan {
    pub candidates: Vec<OrphanCandidate>,
    pub total_size: u64,
}

/// The images moved to quarantine and the manifests written.
#[derive(Debug)]
pub struct QuarantineResult {
    pub moved: Vec<OrphanCandidate>,
    pub manifests: Vec<String>,
}

/// A candidate as values.
pub struct CandidateView {
    pub path: Seq<char>,
    pub size: u64,
    pub kind: Seq<char>,
}

impl View for OrphanCandidate {
    type V = CandidateView;

    open spec fn view(&self) -> CandidateView {
        CandidateView { path: self.path@, size: self.size, kind: self.kind@ }
    }
}

pub open spec fn candidate_views(c: Seq<OrphanCandidate>) -> Seq<CandidateView> {
    c.map_values(|x: OrphanCandidate| x@)
}

pub open spec fn string_views(v: Seq<String>) -> Seq<Seq<char>> {
    v.map_values(|x: String| x@)
}

/// No path is listed twice.
pub open spec fn no_duplicates(paths: Seq<Seq<char>>) -> bool {
    forall|i: int, j: int| 0 <= i < j < paths.len() ==> paths[i] != paths[j]
}

/// The path is that of one of the candidates.
pub open spec fn is_candidate_path(current: Seq<CandidateView>, p: Seq<char>) -> bool {
    exists|k: int| 0 <= k < current.len() && (#[trigger] current[k]).path == p
}

/// A reviewed list may be acted on: it lists no path twice, and every path it
/// lists is one of the orphans found now.
pub open spec fn review_is_current(current: Seq<CandidateView>, reviewed: Seq<Seq<char>>) -> bool {
    &&& no_duplicates(reviewed)
    &&& forall|i: int| 0 <= i < reviewed.len() ==> is_candidate_path(current, #[trigger] reviewed[i])
}

/// The message for a reviewed list that may not be acted on.
pub open spec fn stale_review_message() -> Seq<char> {
    "Reviewed orphan list is stale or contains an unsafe path; run dry-run again"@
}

fn is_candidate_path_exec(current: &[OrphanCandidate], p: &str) -> (r: bool)
    ensures
        r == is_candidate_path(candidate_views(current@), p@),
{
    let mut k: usize = 0;
    while k < current.len()
        invariant
            k <= current@.len(),
            forall|j: int| 0 <= j < k ==> (#[trigger] candidate_views(current@)[j]).path != p@,
        decreases current.len() - k,
    {
        if str_equal(current[k].path.as_str(), p) {
            assert(candidate_views(current@)[k as int].path == p@);
            return true;
        }
        k += 1;
    }
    false
}

/// Checks a reviewed list against the orphans found now (see
/// `review_is_current`).
pub fn check_review(current: &[OrphanCandidate], reviewed: &[String]) -> (r: Result<(), String>)
    ensures
        r is Ok <==> review_is_current(candidate_views(current@), string_views(reviewed@)),
        r matches Err(e) ==> e@ == stale_review_message(),
{
    let ghost rv = string_views(reviewed@);
    let mut i: usize = 0;
    while i < reviewed.len()
        invariant
            i <= reviewed@.len(),
            rv == string_views(reviewed@),
            forall|a: int, b: int| 0 <= a < b < i ==> rv[a] != rv[b],
            forall|a: int| 0 <= a < i ==> is_candidate_path(candidate_views(current@), #[trigger] rv[a]),
        decreases reviewed.len() - i,
    {
        let mut j: usize = 0;
        while j < i
            invariant
                j <= i < reviewed@.len(),
                rv == string_views(reviewed@),
                forall|a: int| 0 <= a < j ==> rv[a] != rv[i as int],
            decreases i - j,
        {
            if str_equal(reviewed[j].as_str(), reviewed[i].as_str()) {
                assert(rv[j as int] == rv[i as int]);
                return Err(String::from_str(
                    "Reviewed orphan list is stale or contains an unsafe path; run dry-run again",
                ));
            }
            j += 1;
        }
        if !is_candidate_path_exec(current, reviewed[i].as_str()) {
            assert(!is_candidate_path(candidate_views(current@), rv[i as int]));
            return Err(String::from_str(
                "Reviewed orphan list is stale or contains an unsafe path; run dry-run again",
            ));
        }
        i += 1;
    }
    Ok(())
}

/// Whether `p` is one of the reviewed paths.
pub open spec fn is_reviewed(reviewed: Seq<Seq<char>>, p: Seq<char>) -> bool {
    reviewed.contains(p)
}

/// The candidates of kind `kind` whose path was reviewed, in order.
pub open spec fn selected(
    candidates: Seq<CandidateView>,
    reviewed: Seq<Seq<char>>,
    kind: Seq<char>,
) -> Seq<CandidateView> {
    candidates.filter(|c: CandidateView| c.kind == kind && is_reviewed(reviewed, c.path))
}

fn is_reviewed_exec(reviewed: &[String], p: &str) -> (r: bool)
    ensures
        r == is_reviewed(string_views(reviewed@), p@),
{
    let mut k: usize = 0;
    while k < reviewed.len()
        invariant
            k <= reviewed@.len(),
            forall|j: int| 0 <= j < k ==> string_views(reviewed@)[j] != p@,
        decreases reviewed.len() - k,
    {
        if str_equal(reviewed[k].as_str(), p) {
            assert(string_views(reviewed@)[k as int] == p@);
            return true;
        }
        k += 1;
    }
    false
}

fn copy_candidate(c: &OrphanCandidate) -> (r: OrphanCandidate)
    ensures
        r@ == c@,
{
    OrphanCandidate { path: c.path.clone(), size: c.size, kind: c.kind.clone() }
}

/// The candidates of kind `kind` whose path is among `reviewed`, in order.
pub fn select_reviewed(candidates: &[OrphanCandidate], reviewed: &[String], kind: &str) -> (r: Vec<
    OrphanCandidate,
>)
    ensures
        candidate_views(r@) == selected(candidate_views(candidates@), string_views(reviewed@), kind@),
{
    let ghost cv = candidate_views(candidates@);
    let ghost pred = |c: CandidateView| c.kind == kind@ && is_reviewed(string_views(reviewed@), c.path);
    let mut r: Vec<OrphanCandidate> = Vec::new();
    let mut i: usize = 0;
    assert(cv.take(0) =~= Seq::<CandidateView>::empty());
    while i < candidates.len()
        invariant
            i <= candidates@.len(),
            cv == candidate_views(candidates@),
            pred == (|c: CandidateView| c.kind == kind@ && is_reviewed(string_views(reviewed@), c.path)),
            candidate_views(r@) == cv.take(i as int).filter(pred),
        decreases candidates.len() - i,
    {
        proof {
            assert(cv.take(i + 1) =~= cv.take(i as int).push(cv[i as int]));
            cv.take(i as int).lemma_filter_push(cv[i as int], pred);
        }
        let c = &candidates[i];
        if str_equal(c.kind.as_str(), kind) && is_reviewed_exec(reviewed, c.path.as_str()) {
            let ghost before = candidate_views(r@);
            r.push(copy_candidate(c));
            assert(candidate_views(r@) =~= before.push(cv[i as int]));
        }
        i += 1;
    }
    assert(cv.take(i as int) =~= cv);
    r
}

// ---------------------------------------------------------------------
// Quarantine manifest
// ---------------------------------------------------------------------

/// One image move recorded in a quarantine manifest.
#[derive(Debug)]
pub struct ManifestEntry {
    pub original_path: String,
    pub quarantine_path: String,
    pub size: u64,
    pub quarantined_at: String,
    pub status: String,
}

/// The record of one quarantine batch.
#[derive(Debug)]
pub struct OrphanManifest {
    pub created_at: String,
    pub entries: Vec<ManifestEntry>,
}

pub struct EntryView {
    pub original_path: Seq<char>,
    pub quarantine_path: Seq<char>,
    pub size: u64,
    pub quarantined_at: Seq<char>,
    pub status: Seq<char>,
}

pub struct ManifestView {
    pub created_at: Seq<char>,
    pub entries: Seq<EntryView>,
}

impl View for ManifestEntry {
    type V = EntryView;

    open spec fn view(&self) -> EntryView {
        EntryView {
            original_path: self.original_path@,
            quarantine_path: self.quarantine_path@,
            size: self.size,
            quarantined_at: self.quarantined_at@,
            status: self.status@,
        }
    }
}

pub open spec fn entry_views(e: Seq<ManifestEntry>) -> Seq<EntryView> {
    e.map_values(|x: ManifestEntry| x@)
}

impl View for OrphanManifest {
    type V = ManifestView;

    open spec fn view(&self) -> ManifestView {
        ManifestView { created_at: self.created_at@, entries: entry_views(self.entries@) }
    }
}

/// The manifest with a move of `c` to `destination` recorded as planned,
/// stamped with the manifest's creation time.
pub open spec fn planned(m: ManifestView, c: CandidateView, destination: Seq<char>) -> ManifestView {
    ManifestView {
        created_at: m.created_at,
        entries: m.entries.push(
            EntryView {
                original_path: c.path,
                quarantine_path: destination,
                size: c.size,
                quarantined_at: m.created_at,
                status: "planned"@,
            },
        ),
    }
}

/// The manifest with its last move recorded as done.
pub open spec fn confirmed(m: ManifestView) -> ManifestView {
    if m.entries.len() == 0 {
        m
    } else {
        let last = m.entries.last();
        ManifestView {
            created_at: m.created_at,
            entries: m.entries.update(
                m.entries.len() - 1,
                EntryView {
                    original_path: last.original_path,
                    quarantine_path: last.quarantine_path,
                    size: last.size,
                    quarantined_at: last.quarantined_at,
                    status: "moved"@,
                },
            ),
        }
    }
}

/// The manifest without its last move.
pub open spec fn cancelled(m: ManifestView) -> ManifestView {
    if m.entries.len() == 0 {
        m
    } else {
        ManifestView { created_at: m.created_at, entries: m.entries.drop_last() }
    }
}

/// The moves of a manifest that were done, in order: those a restore undoes.
pub open spec fn restorable(m: ManifestView) -> Seq<EntryView> {
    m.entries.filter(|e: EntryView| e.status == "moved"@)
}

fn copy_entry(e: &ManifestEntry) -> (r: ManifestEntry)
    ensures
        r@ == e@,
{
    ManifestEntry {
        original_path: e.original_path.clone(),
        quarantine_path: e.quarantine_path.clone(),
        size: e.size,
        quarantined_at: e.quarantined_at.clone(),
        status: e.status.clone(),
    }
}

impl OrphanManifest {
    /// An empty manifest created at `created_at`.
    pub fn new(created_at: String) -> (r: Self)
        ensures
            r@.created_at == created_at@,
            r@.entries.len() == 0,
    {
        let r = OrphanManifest { created_at, entries: Vec::new() };
        assert(r@.entries =~= Seq::<EntryView>::empty());
        r
    }

    /// Records that `candidate` is about to move to `destination`.
    pub fn plan_move(&mut self, candidate: &OrphanCandidate, destination: &str)
        ensures
            final(self)@ == planned(old(self)@, candidate@, destination@),
    {
        let e = ManifestEntry {
            original_path: candidate.path.clone(),
            quarantine_path: String::from_str(destination),
            size: candidate.size,
            quarantined_at: self.created_at.clone(),
            status: String::from_str("planned"),
        };
        let ghost before = entry_views(self.entries@);
        self.entries.push(e);
        assert(entry_views(self.entries@) =~= before.push(e@));
    }

    /// Records that the last planned move was done.
    pub fn confirm_last_move(&mut self)
        ensures
            final(self)@ == confirmed(old(self)@),
    {
        let n = self.entries.len();
        if n == 0 {
            return;
        }
        let ghost before = entry_views(self.entries@);
        let last = copy_entry(&self.entries[n - 1]);
        let moved = ManifestEntry {
            original_path: last.original_path,
            quarantine_path: last.quarantine_path,
            size: last.size,
            quarantined_at: last.quarantined_at,
            status: String::from_str("moved"),
        };
        let ghost mv = moved@;
        self.entries.set(n - 1, moved);
        assert(entry_views(self.entries@) =~= before.update(n - 1, mv));
    }

    /// Forgets the last planned move, which did not happen.
    pub fn cancel_last_move(&mut self)
        ensures
            final(self)@ == cancelled(old(self)@),
    {
        let ghost before = entry_views(self.entries@);
        if self.entries.len() > 0 {
            self.entries.pop();
            assert(entry_views(self.entries@) =~= before.drop_last());
        }
    }

    /// The moves that were done, in order.
    pub fn moved_entries(&self) -> (r: Vec<ManifestEntry>)
        ensures
            entry_views(r@) == restorable(self@),
    {
        let ghost ev = entry_views(self.entries@);
        let ghost pred = |e: EntryView| e.status == "moved"@;
        let mut r: Vec<ManifestEntry> = Vec::new();
        let mut i: usize = 0;
        assert(ev.take(0) =~= Seq::<EntryView>::empty());
        while i < self.entries.len()
            invariant
                i <= self.entries@.len(),
                ev == entry_views(self.entries@),
                pred == (|e: EntryView| e.status == "moved"@),
                entry_views(r@) == ev.take(i as int).filter(pred),
            decreases self.entries.len() - i,
        {
            proof {
                assert(ev.take(i + 1) =~= ev.take(i as int).push(ev[i as int]));
                ev.take(i as int).lemma_filter_push(ev[i as int], pred);
            }
            let e = &self.entries[i];
            if str_equal(e.status.as_str(), "moved") {
                let ghost before = entry_views(r@);
                r.push(copy_entry(e));
                assert(entry_views(r@) =~= before.push(ev[i as int]));
            }
            i += 1;
        }
        assert(ev.take(i as int) =~= ev);
        r
    }
}

impl OrphanManifest {
    /// Records how the last planned move went: when the file was renamed the
    /// move is confirmed; when the rename failed the plan is cancelled and
    /// the failure reported for `source`.
    pub fn record_move_outcome(&mut self, rename: Result<(), String>, source: &str) -> (r: Result<
        (),
        String,
    >)
        ensures
            rename is Ok ==> final(self)@ == confirmed(old(self)@) && r is Ok,
            rename matches Err(e) ==> final(self)@ == cancelled(old(self)@) && (r matches Err(m)
                && m@ == "Failed to quarantine "@ + source@ + ": "@ + e@),
    {
        match rename {
            Ok(()) => {
                self.confirm_last_move();
                Ok(())
            },
            Err(e) => {
                self.cancel_last_move();
                let mut m = String::from_str("Failed to quarantine ");
                m.append(source);
                m.append(": ");
                m.append(e.as_str());
                Err(m)
            },
        }
    }
}

/// A quarantine batch may be started only where none exists yet.
pub fn batch_check(manifest_exists: bool, timestamp: &str) -> (r: Result<(), String>)
    ensures
        r is Ok <==> !manifest_exists,
        r matches Err(e) ==> e@ == "Quarantine batch already exists: "@ + timestamp@,
{
    if manifest_exists {
        let mut m = String::from_str("Quarantine batch already exists: ");
        m.append(timestamp);
        Err(m)
    } else {
        Ok(())
    }
}

/// An image may be moved to `destination` only where nothing is there yet.
pub fn destination_check(destination_exists: bool, destination: &str) -> (r: Result<(), String>)
    ensures
        r is Ok <==> !destination_exists,
        r matches Err(e) ==> e@ == "Refusing to overwrite "@ + destination@,
{
    if destination_exists {
        let mut m = String::from_str("Refusing to overwrite ");
        m.append(destination);
        Err(m)
    } else {
        Ok(())
    }
}

/// Cancelling a planned move gives back the manifest as it was before the plan.
pub proof fn lemma_cancel_undoes_plan(m: ManifestView, c: CandidateView, destination: Seq<char>)
    ensures
        cancelled(planned(m, c, destination)) == m,
{
    assert(cancelled(planned(m, c, destination)).entries =~= m.entries);
}

/// A planned move is not restorable until it is confirmed; once confirmed it
/// is restorable after all earlier restorable moves.
pub proof fn lemma_confirmed_plan_is_restorable(
    m: ManifestView,
    c: CandidateView,
    destination: Seq<char>,
)
    ensures
        restorable(planned(m, c, destination)) == restorable(m),
        restorable(confirmed(planned(m, c, destination))) == restorable(m).push(
            EntryView {
                original_path: c.path,
                quarantine_path: destination,
                size: c.size,
                quarantined_at: m.created_at,
                status: "moved"@,
            },
        ),
{
    let pred = |e: EntryView| e.status == "moved"@;
    let p = planned(m, c, destination);
    let last = p.entries.last();
    let moved = EntryView {
        original_path: c.path,
        quarantine_path: destination,
        size: c.size,
        quarantined_at: m.created_at,
        status: "moved"@,
    };
    reveal_strlit("planned");
    reveal_strlit("moved");
    assert("planned"@ != "moved"@) by {
        assert("planned"@[0] != "moved"@[0]);
    }
    m.entries.lemma_filter_push(last, pred);
    assert(confirmed(p).entries =~= m.entries.push(moved));
    m.entries.lemma_filter_push(moved, pred);
}

/// The manifest after each of `cs` was planned to move to the matching
/// destination of `ds` and the move was done, one after the other.
pub open spec fn after_moves(m: ManifestView, cs: Seq<CandidateView>, ds: Seq<Seq<char>>) -> ManifestView
    decreases cs.len(),
{
    if cs.len() == 0 || ds.len() == 0 {
        m
    } else {
        after_moves(confirmed(planned(m, cs[0], ds[0])), cs.drop_first(), ds.drop_first())
    }
}

/// The entry recording that `c` was moved to `destination` in a batch
/// created at `created_at`.
pub open spec fn moved_entry(c: CandidateView, destination: Seq<char>, created_at: Seq<char>) -> EntryView {
    EntryView {
        original_path: c.path,
        quarantine_path: destination,
        size: c.size,
        quarantined_at: created_at,
        status: "moved"@,
    }
}

/// A batch whose moves all went through can be restored exactly: its
/// restorable entries are the earlier ones followed by every moved image, in
/// order, each from its destination back to its original path.
pub proof fn lemma_batch_restores_its_moves(
    m: ManifestView,
    cs: Seq<CandidateView>,
    ds: Seq<Seq<char>>,
)
    requires
        cs.len() == ds.len(),
    ensures
        after_moves(m, cs, ds).created_at == m.created_at,
        restorable(after_moves(m, cs, ds)) == restorable(m) + Seq::new(
            cs.len(),
            |i: int| moved_entry(cs[i], ds[i], m.created_at),
        ),
    decreases cs.len(),
{
    let tail = Seq::new(cs.len(), |i: int| moved_entry(cs[i], ds[i], m.created_at));
    if cs.len() == 0 {
        assert(restorable(m) + tail =~= restorable(m));
    } else {
        lemma_confirmed_plan_is_restorable(m, cs[0], ds[0]);
        let m1 = confirmed(planned(m, cs[0], ds[0]));
        assert(m1.created_at == m.created_at);
        lemma_batch_restores_its_moves(m1, cs.drop_first(), ds.drop_first());
        let rest = Seq::new(
            cs.drop_first().len(),
            |i: int| moved_entry(cs.drop_first()[i], ds.drop_first()[i], m1.created_at),
        );
        assert(restorable(m1) == restorable(m).push(moved_entry(cs[0], ds[0], m.created_at)));
        assert(restorable(m).push(moved_entry(cs[0], ds[0], m.created_at)) + rest =~= restorable(m)
            + tail);
    }
}

/// When a batch stops at a move whose rename failed, the recorded plan is
/// cancelled and the manifest restores exactly the moves done before it.
pub proof fn lemma_failed_move_keeps_done_moves(
    m: ManifestView,
    cs: Seq<CandidateView>,
    ds: Seq<Seq<char>>,
    c: CandidateView,
    destination: Seq<char>,
)
    requires
        cs.len() == ds.len(),
    ensures
        cancelled(planned(after_moves(m, cs, ds), c, destination)) == after_moves(m, cs, ds),
        restorable(cancelled(planned(after_moves(m, cs, ds), c, destination))) == restorable(m)
            + Seq::new(cs.len(), |i: int| moved_entry(cs[i], ds[i], m.created_at)),
{
    lemma_cancel_undoes_plan(after_moves(m, cs, ds), c, destination);
    lemma_batch_restores_its_moves(m, cs, ds);
}

// ---------------------------------------------------------------------
// Ordering the scan
// ---------------------------------------------------------------------

/// `a` comes before `b` in the order of `String`'s `Ord`: lexicographic by
/// character code (the order of their UTF-8 bytes).
pub open spec fn path_lt(a: Seq<char>, b: Seq<char>) -> bool
    decreases a.len(),
{
    if a.len() == 0 {
        b.len() > 0
    } else if b.len() == 0 {
        false
    } else if (a[0] as u32) != (b[0] as u32) {
        (a[0] as u32) < (b[0] as u32)
    } else {
        path_lt(a.drop_first(), b.drop_first())
    }
}

/// `a` does not come after `b`.
pub open spec fn path_le(a: Seq<char>, b: Seq<char>) -> bool {
    !path_lt(b, a)
}

/// No path comes before itself.
pub proof fn lemma_path_lt_irreflexive(a: Seq<char>)
    ensures
        !path_lt(a, a),
    decreases a.len(),
{
    if a.len() > 0 {
        lemma_path_lt_irreflexive(a.drop_first());
    }
}

/// Of two paths, at most one comes before the other.
pub proof fn lemma_path_lt_asymmetric(a: Seq<char>, b: Seq<char>)
    ensures
        path_lt(a, b) ==> !path_lt(b, a),
    decreases a.len(),
{
    if a.len() > 0 && b.len() > 0 && (a[0] as u32) == (b[0] as u32) {
        lemma_path_lt_asymmetric(a.drop_first(), b.drop_first());
    }
}

/// If `a` comes before `c`, then any `b` comes after `a` or before `c`.
pub proof fn lemma_path_lt_negative_transitive(a: Seq<char>, b: Seq<char>, c: Seq<char>)
    ensures
        path_lt(a, c) ==> path_lt(a, b) || path_lt(b, c),
    decreases a.len(),
{
    if a.len() > 0 && b.len() > 0 && c.len() > 0 && (a[0] as u32) == (b[0] as u32) && (b[0] as u32)
        == (c[0] as u32) {
        lemma_path_lt_negative_transitive(a.drop_first(), b.drop_first(), c.drop_first());
    }
}

/// The path order is transitive.
pub proof fn lemma_path_lt_transitive(a: Seq<char>, b: Seq<char>, c: Seq<char>)
    ensures
        path_lt(a, b) && path_lt(b, c) ==> path_lt(a, c),
{
    lemma_path_lt_negative_transitive(a, c, b);
    lemma_path_lt_asymmetric(b, c);
}

/// Every candidate's path is no later than that of any candidate after it.
pub open spec fn sorted_by_path(s: Seq<CandidateView>) -> bool {
    forall|i: int, j: int| 0 <= i < j < s.len() ==> path_le(s[i].path, s[j].path)
}

/// The candidates with path `p`, in order.
pub open spec fn with_path(s: Seq<CandidateView>, p: Seq<char>) -> Seq<CandidateView> {
    s.filter(|c: CandidateView| c.path == p)
}

/// The sum of the candidates' sizes.
pub open spec fn total_size(s: Seq<CandidateView>) -> nat
    decreases s.len(),
{
    if s.len() == 0 {
        0
    } else {
        total_size(s.drop_last()) + s.last().size as nat
    }
}

fn path_lt_exec(a: &[char], b: &[char]) -> (r: bool)
    ensures
        r == path_lt(a@, b@),
{
    let mut i: usize = 0;
    assert(a@.skip(0) =~= a@);
    assert(b@.skip(0) =~= b@);
    while i < a.len() && i < b.len() && (a[i] as u32) == (b[i] as u32)
        invariant
            i <= a@.len(),
            i <= b@.len(),
            path_lt(a@, b@) == path_lt(a@.skip(i as int), b@.skip(i as int)),
        decreases a.len() - i,
    {
        assert(a@.skip(i as int).drop_first() =~= a@.skip(i + 1));
        assert(b@.skip(i as int).drop_first() =~= b@.skip(i + 1));
        i += 1;
    }
    if i == a.len() {
        i < b.len()
    } else if i == b.len() {
        false
    } else {
        (a[i] as u32) < (b[i] as u32)
    }
}

/// The first position in the sorted `s` whose path comes after `p`.
fn insertion_point(s: &Vec<OrphanCandidate>, p: &[char]) -> (k: usize)
    requires
        sorted_by_path(candidate_views(s@)),
    ensures
        k <= s@.len(),
        forall|j: int| 0 <= j < k ==> !path_lt(p@, #[trigger] candidate_views(s@)[j].path),
        forall|j: int| k <= j < s@.len() ==> path_lt(p@, #[trigger] candidate_views(s@)[j].path),
{
    let mut k: usize = 0;
    while k < s.len()
        invariant
            k <= s@.len(),
            sorted_by_path(candidate_views(s@)),
            forall|j: int| 0 <= j < k ==> !path_lt(p@, #[trigger] candidate_views(s@)[j].path),
        decreases s.len() - k,
    {
        let sp = chars_of(s[k].path.as_str());
        if path_lt_exec(p, sp.as_slice()) {
            proof {
                assert(candidate_views(s@)[k as int].path == sp@);
                assert forall|j: int| k <= j < s@.len() implies path_lt(
                    p@,
                    #[trigger] candidate_views(s@)[j].path,
                ) by {
                    if j > k {
                        let cv = candidate_views(s@);
                        assert(path_le(cv[k as int].path, cv[j].path));
                        lemma_path_lt_negative_transitive(p@, cv[j].path, cv[k as int].path);
                    }
                }
            }
            return k;
        }
        k += 1;
    }
    k
}

proof fn lemma_filter_insert<A>(s: Seq<A>, k: int, x: A, pred: spec_fn(A) -> bool)
    requires
        0 <= k <= s.len(),
        pred(x) ==> forall|j: int| k <= j < s.len() ==> !pred(#[trigger] s[j]),
    ensures
        s.insert(k, x).filter(pred) == if pred(x) {
            s.filter(pred).push(x)
        } else {
            s.filter(pred)
        },
{
    let a = s.take(k);
    let b = s.skip(k);
    assert(s =~= a + b);
    assert(s.insert(k, x) =~= a + seq![x] + b);
    Seq::filter_distributes_over_add(a, b, pred);
    Seq::filter_distributes_over_add(a + seq![x], b, pred);
    Seq::filter_distributes_over_add(a, seq![x], pred);
    reveal_with_fuel(Seq::filter, 2);
    assert(seq![x].drop_last() =~= Seq::<A>::empty());
    if pred(x) {
        assert forall|j: int| 0 <= j < b.len() implies !pred(#[trigger] b[j]) by {
            assert(b[j] == s[k + j]);
        }
        assert(b.all(|y: A| !pred(y)));
        b.lemma_all_neg_filter_empty(pred);
        assert(b.filter(pred) =~= Seq::<A>::empty());
        assert(seq![x].filter(pred) =~= seq![x]);
        assert(s.filter(pred) =~= a.filter(pred));
        assert(s.insert(k, x).filter(pred) =~= a.filter(pred).push(x));
    } else {
        assert(seq![x].filter(pred) =~= Seq::<A>::empty());
        assert(s.insert(k, x).filter(pred) =~= a.filter(pred) + b.filter(pred));
    }
}

/// The candidates ordered by path, candidates with the same path keeping
/// their order.
fn sort_by_path(candidates: &Vec<OrphanCandidate>) -> (r: Vec<OrphanCandidate>)
    ensures
        sorted_by_path(candidate_views(r@)),
        forall|p: Seq<char>|
            #[trigger] with_path(candidate_views(r@), p) == with_path(
                candidate_views(candidates@),
                p,
            ),
{
    let ghost input = candidate_views(candidates@);
    let mut sorted: Vec<OrphanCandidate> = Vec::new();
    let mut i: usize = 0;
    assert(input.take(0) =~= Seq::<CandidateView>::empty());
    assert forall|p: Seq<char>| #[trigger] with_path(candidate_views(sorted@), p) == with_path(
        input.take(0),
        p,
    ) by {
        assert(candidate_views(sorted@) =~= input.take(0));
    }
    while i < candidates.len()
        invariant
            i <= candidates@.len(),
            input == candidate_views(candidates@),
            sorted_by_path(candidate_views(sorted@)),
            forall|p: Seq<char>|
                #[trigger] with_path(candidate_views(sorted@), p) == with_path(input.take(i as int), p),
        decreases candidates.len() - i,
    {
        let c = copy_candidate(&candidates[i]);
        let pc = chars_of(c.path.as_str());
        let k = insertion_point(&sorted, pc.as_slice());
        let ghost old_view = candidate_views(sorted@);
        let ghost x = c@;
        sorted.insert(k, c);
        proof {
            let nv = candidate_views(sorted@);
            assert(nv =~= old_view.insert(k as int, x));
            assert(x == input[i as int]);
            assert forall|a: int, b: int| 0 <= a < b < nv.len() implies path_le(
                nv[a].path,
                nv[b].path,
            ) by {
                if b < k {
                } else if b == k {
                } else if a < k {
                    assert(path_le(old_view[a].path, old_view[b - 1].path));
                } else if a == k {
                    lemma_path_lt_asymmetric(x.path, old_view[b - 1].path);
                } else {
                    assert(path_le(old_view[a - 1].path, old_view[b - 1].path));
                }
            }
            assert(input.take(i + 1) =~= input.take(i as int).push(x));
            assert forall|p: Seq<char>| #[trigger] with_path(nv, p) == with_path(
                input.take(i + 1),
                p,
            ) by {
                let pred = |cc: CandidateView| cc.path == p;
                if pred(x) {
                    assert forall|j: int| k <= j < old_view.len() implies !pred(
                        #[trigger] old_view[j],
                    ) by {
                        lemma_path_lt_irreflexive(x.path);
                    }
                }
                lemma_filter_insert(old_view, k as int, x, pred);
                input.take(i as int).lemma_filter_push(x, pred);
                assert(with_path(old_view, p) == with_path(input.take(i as int), p));
            }
        }
        i += 1;
    }
    assert(input.take(i as int) =~= input);
    sorted
}

/// The sum of the candidates' sizes.
fn sum_sizes(candidates: &Vec<OrphanCandidate>) -> (t: u64)
    requires
        total_size(candidate_views(candidates@)) <= u64::MAX,
    ensures
        t == total_size(candidate_views(candidates@)),
{
    let ghost cv = candidate_views(candidates@);
    let mut t: u64 = 0;
    let mut i: usize = 0;
    assert(cv.take(0) =~= Seq::<CandidateView>::empty());
    while i < candidates.len()
        invariant
            i <= candidates@.len(),
            cv == candidate_views(candidates@),
            total_size(cv) <= u64::MAX,
            t == total_size(cv.take(i as int)),
        decreases candidates.len() - i,
    {
        proof {
            assert(cv.take(i + 1).drop_last() =~= cv.take(i as int));
            lemma_total_size_prefix(cv, i + 1);
        }
        t = t + candidates[i].size;
        i += 1;
    }
    assert(cv.take(i as int) =~= cv);
    t
}

proof fn lemma_total_size_prefix(s: Seq<CandidateView>, n: int)
    requires
        0 <= n <= s.len(),
    ensures
        total_size(s.take(n)) <= total_size(s),
    decreases s.len() - n,
{
    if n < s.len() {
        lemma_total_size_prefix(s, n + 1);
        assert(s.take(n + 1).drop_last() =~= s.take(n));
    } else {
        assert(s.take(n) =~= s);
    }
}

/// The scan of the orphans found: ordered by path, orphans with the same
/// path keeping their order, with the sum of their sizes.
pub fn finish_scan(candidates: Vec<OrphanCandidate>) -> (r: OrphanScan)
    requires
        total_size(candidate_views(candidates@)) <= u64::MAX,
    ensures
        sorted_by_path(candidate_views(r.candidates@)),
        forall|p: Seq<char>|
            #[trigger] with_path(candidate_views(r.candidates@), p) == with_path(
                candidate_views(candidates@),
                p,
            ),
        r.total_size == total_size(candidate_views(candidates@)),
{
    let total_size = sum_sizes(&candidates);
    let sorted = sort_by_path(&candidates);
    OrphanScan { candidates: sorted, total_size }
}

// ---------------------------------------------------------------------
// Cleaning up pending captures
// ---------------------------------------------------------------------

/// What to do with a pending capture image that is to be cleaned up.
#[derive(Debug, PartialEq, Eq)]
pub enum CleanupStep {
    /// The file does not exist: nothing was removed.
    Nothing,
    /// The file is not directly inside the pending directory: refuse.
    Refuse,
    /// Remove the file.
    Remove,
}

/// A file is an owned pending image when it is a regular file, the pending
/// directory resolves, and the file's resolved parent is that directory.
pub open spec fn owned_pending_image(is_file: bool, pending_resolved: bool, parent_is_pending: bool) -> bool {
    is_file && pending_resolved && parent_is_pending
}

/// The step for a path that exists or not and whose ownership facts are given.
pub open spec fn cleanup_step_for(
    exists: bool,
    is_file: bool,
    pending_resolved: bool,
    parent_is_pending: bool,
) -> CleanupStep {
    if !exists {
        CleanupStep::Nothing
    } else if !owned_pending_image(is_file, pending_resolved, parent_is_pending) {
        CleanupStep::Refuse
    } else {
        CleanupStep::Remove
    }
}

/// Decides how to clean up a pending capture image: nothing when it does
/// not exist, refuse when it is not a file directly inside the pending
/// directory, remove it otherwise.
pub fn pending_cleanup_step(
    exists: bool,
    is_file: bool,
    pending_resolved: bool,
    parent_is_pending: bool,
) -> (r: CleanupStep)
    ensures
        r == cleanup_step_for(exists, is_file, pending_resolved, parent_is_pending),
{
    if !exists {
        CleanupStep::Nothing
    } else if !(is_file && pending_resolved && parent_is_pending) {
        CleanupStep::Refuse
    } else {
        CleanupStep::Remove
    }
}

/// The outcome of cleaning up a pending capture image, given the step taken
/// and, for a removal, its result: `Ok(false)` when there was nothing to
/// remove, `Ok(true)` when it was removed, and the refusal or the removal
/// error otherwise.
pub fn cleanup_outcome(step: &CleanupStep, removal: Result<(), String>) -> (r: Result<bool, String>)
    ensures
        *step == CleanupStep::Nothing ==> r == Ok::<bool, String>(false),
        *step == CleanupStep::Refuse ==> (r matches Err(e) && e@
            == "Refusing to delete an image outside captures/.pending"@),
        *step == CleanupStep::Remove ==> match removal {
            Ok(()) => r == Ok::<bool, String>(true),
            Err(e) => (r matches Err(m) && m@ == "Failed to remove pending image: "@ + e@),
        },
{
    match step {
        CleanupStep::Nothing => Ok(false),
        CleanupStep::Refuse => Err(
            String::from_str("Refusing to delete an image outside captures/.pending"),
        ),
        CleanupStep::Remove => match removal {
            Ok(()) => Ok(true),
            Err(e) => {
                let mut m = String::from_str("Failed to remove pending image: ");
                m.append(e.as_str());
                Err(m)
            },
        },
    }
}

// ---------------------------------------------------------------------
// Restoring a quarantine batch
// ---------------------------------------------------------------------

/// A manifest may be restored from only when it is the batch's manifest file
/// and lies under the quarantine directory of the image root.
pub fn manifest_location_check(is_manifest_file: bool, under_quarantine_root: bool) -> (r: Result<
    (),
    String,
>)
    ensures
        r is Ok <==> is_manifest_file && under_quarantine_root,
        r matches Err(e) ==> e@ == "Manifest is outside the OpenWiki quarantine directory"@,
{
    if is_manifest_file && under_quarantine_root {
        Ok(())
    } else {
        Err(String::from_str("Manifest is outside the OpenWiki quarantine directory"))
    }
}

/// A moved image may be put back only when its original place is directly
/// inside the image root, its quarantined copy sits beside the manifest, and
/// nothing has taken its original place since.
pub fn restore_entry_check(
    original_path: &str,
    original_in_root: bool,
    beside_manifest: bool,
    original_exists: bool,
) -> (r: Result<(), String>)
    ensures
        r is Ok <==> original_in_root && beside_manifest && !original_exists,
        r matches Err(e) ==> e@ == "Manifest entry is unsafe or cannot be restored: "@
            + original_path@,
{
    if original_in_root && beside_manifest && !original_exists {
        Ok(())
    } else {
        let mut m = String::from_str("Manifest entry is unsafe or cannot be restored: ");
        m.append(original_path);
        Err(m)
    }
}

/// Quarantine selects exactly the orphans of the kind whose path was
/// reviewed: every selected image is such an orphan, and every such orphan
/// is selected.
pub proof fn lemma_selected_are_reviewed(
    candidates: Seq<CandidateView>,
    reviewed: Seq<Seq<char>>,
    kind: Seq<char>,
)
    ensures
        forall|i: int|
            0 <= i < selected(candidates, reviewed, kind).len() ==> {
                let c = #[trigger] selected(candidates, reviewed, kind)[i];
                &&& c.kind == kind
                &&& reviewed.contains(c.path)
                &&& candidates.contains(c)
            },
        forall|j: int|
            0 <= j < candidates.len() && (#[trigger] candidates[j]).kind == kind
                && reviewed.contains(candidates[j].path) ==> selected(
                candidates,
                reviewed,
                kind,
            ).contains(candidates[j]),
{
    let pred = |c: CandidateView| c.kind == kind && is_reviewed(reviewed, c.path);
    let q = |c: CandidateView| candidates.contains(c);
    assert forall|j: int| 0 <= j < candidates.len() implies #[trigger] q(candidates[j]) by {
        assert(candidates.contains(candidates[j]));
    }
    lemma_filter_keeps(candidates, pred, q);
    assert forall|j: int|
        0 <= j < candidates.len() && (#[trigger] candidates[j]).kind == kind && reviewed.contains(
            candidates[j].path,
        ) implies selected(candidates, reviewed, kind).contains(candidates[j]) by {
        candidates.lemma_filter_contains(pred, j);
    }
}

} // verus!
