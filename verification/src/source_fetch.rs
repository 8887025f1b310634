//! Source-fetching step: deterministic git checkout.
//!
//! Without a deterministic, content-addressed source-fetch primitive every
//! committee member fetches independently and there is no way to assert "we
//! all checked out the same tree".
//!
//! - [`hash_working_tree`] hashes the canonical listing of a working tree: one
//!   `(path, mode, blob)` record per file, in the order of the paths.
//! - [`execute_source_fetch`] runs the `git` commands of a fetch, and says what comes of
//!   each outcome: clone, check the reference out, resolve `HEAD`, hash.
//!
//! The resolved commit is part of the step's output hash, so two runners that
//! resolved a moving branch to different commits disagree at the quorum layer.

use crate::boundary;
use crate::bytes;
use crate::text;
use vstd::prelude::*;

verus! {

/// Successful outcome of a fetch.
#[derive(Clone, Debug, PartialEq, Eq)]
pub struct SourceFetchOutput {
    /// Commit the checkout resolved to, in lowercase hex.
    pub resolved_sha: String,
    /// SHA-256 of the canonical tree listing.
    pub tree_hash: [u8; 32],
}

/// Errors a fetch can end in.
#[derive(Clone, Debug, PartialEq, Eq)]
pub enum SourceFetchError {
    /// `git` is not on `PATH`.
    GitNotFound,
    /// `git clone` failed. Carries stderr.
    CloneFailed(String),
    /// `git checkout <ref>` failed. Carries stderr.
    CheckoutFailed(String),
    /// `git rev-parse HEAD` failed. Carries stderr.
    ResolveFailed(String),
    /// I/O error walking the tree or creating the directory. Carries its text.
    Io(String),
}

/// What a fetch error says.
pub enum FetchFault {
    /// `git` is not on `PATH`.
    GitNotFound,
    /// `git clone` failed.
    CloneFailed(Seq<char>),
    /// `git checkout` failed.
    CheckoutFailed(Seq<char>),
    /// `git rev-parse` failed.
    ResolveFailed(Seq<char>),
    /// I/O error.
    Io(Seq<char>),
}

impl View for SourceFetchError {
    type V = FetchFault;

    open spec fn view(&self) -> FetchFault {
        match *self {
            SourceFetchError::GitNotFound => FetchFault::GitNotFound,
            SourceFetchError::CloneFailed(s) => FetchFault::CloneFailed(s@),
            SourceFetchError::CheckoutFailed(s) => FetchFault::CheckoutFailed(s@),
            SourceFetchError::ResolveFailed(s) => FetchFault::ResolveFailed(s@),
            SourceFetchError::Io(s) => FetchFault::Io(s@),
        }
    }
}

impl SourceFetchError {
    /// The error in words.
    #[must_use]
    pub fn message(&self) -> (r: String)
        ensures
            r@ == match self@ {
                FetchFault::GitNotFound => "git not on PATH"@,
                FetchFault::CloneFailed(s) => "git clone failed: "@ + s,
                FetchFault::CheckoutFailed(s) => "git checkout failed: "@ + s,
                FetchFault::ResolveFailed(s) => "git rev-parse failed: "@ + s,
                FetchFault::Io(s) => "io: "@ + s,
            },
    {
        match self {
            SourceFetchError::GitNotFound => "git not on PATH".to_owned(),
            SourceFetchError::CloneFailed(s) => text::joined("git clone failed: ", s.as_str()),
            SourceFetchError::CheckoutFailed(s) => text::joined(
                "git checkout failed: ",
                s.as_str(),
            ),
            SourceFetchError::ResolveFailed(s) => text::joined(
                "git rev-parse failed: ",
                s.as_str(),
            ),
            SourceFetchError::Io(s) => text::joined("io: ", s.as_str()),
        }
    }
}

// ── Tree listing ───────────────────────────────────────────────────────────
/// One file of a working tree.
#[derive(Clone, Debug, PartialEq, Eq)]
pub struct TreeEntry {
    /// Path relative to the root, with `/` separators.
    pub path: String,
    /// Canonical file mode.
    pub mode: u32,
    /// SHA-256 of the contents.
    pub blob_sha: [u8; 32],
}

/// What a file of a working tree is listed as.
pub struct TreeFact {
    /// Path.
    pub path: Seq<char>,
    /// Mode.
    pub mode: u32,
    /// SHA-256 of the contents.
    pub blob_sha: Seq<u8>,
}

impl View for TreeEntry {
    type V = TreeFact;

    open spec fn view(&self) -> TreeFact {
        TreeFact { path: self.path@, mode: self.mode, blob_sha: self.blob_sha@ }
    }
}

/// What a list of files is.
pub open spec fn listed(v: Seq<TreeEntry>) -> Seq<TreeFact> {
    v.map_values(|e: TreeEntry| e@)
}

/// The bytes of a path.
pub open spec fn path_bytes(e: TreeFact) -> Seq<u8> {
    vstd::utf8::encode_utf8(e.path)
}

/// The record of a file: the length of the path, the path, the mode, the blob.
/// With the length in front, no two listings write the same bytes.
pub open spec fn record_of(e: TreeFact) -> Seq<u8> {
    bytes::le_of(path_bytes(e).len(), 8) + path_bytes(e) + bytes::le_of(e.mode as nat, 4)
        + e.blob_sha
}

/// The records of a list of files, one after the other.
pub open spec fn listing_of(s: Seq<TreeFact>) -> Seq<u8>
    decreases s.len(),
{
    if s.len() == 0 {
        Seq::empty()
    } else {
        listing_of(s.drop_last()) + record_of(s.last())
    }
}

/// The files with this path, in order.
pub open spec fn at_path(s: Seq<TreeFact>, path: Seq<char>) -> Seq<TreeFact>
    decreases s.len(),
{
    if s.len() == 0 {
        Seq::empty()
    } else if s.last().path == path {
        at_path(s.drop_last(), path).push(s.last())
    } else {
        at_path(s.drop_last(), path)
    }
}

/// Whether paths ascend, byte by byte.
pub open spec fn paths_ascend(s: Seq<TreeFact>) -> bool {
    forall|i: int, j: int|
        0 <= i < j < s.len() ==> !bytes::lex_less(path_bytes(#[trigger] s[j]), path_bytes(
            #[trigger] s[i],
        ))
}

/// Whether `sorted` holds the files of `s` in the order of their paths, those
/// with the same path in the order in which they came.
pub open spec fn is_order_of(sorted: Seq<TreeFact>, s: Seq<TreeFact>) -> bool {
    &&& paths_ascend(sorted)
    &&& forall|path: Seq<char>| #[trigger] at_path(sorted, path) == at_path(s, path)
}

fn copy_entry(e: &TreeEntry) -> (r: TreeEntry)
    ensures
        r@ == e@,
{
    TreeEntry { path: e.path.clone(), mode: e.mode, blob_sha: e.blob_sha }
}

proof fn lemma_at_path_add(a: Seq<TreeFact>, b: Seq<TreeFact>, path: Seq<char>)
    ensures
        at_path(a + b, path) == at_path(a, path) + at_path(b, path),
    decreases b.len(),
{
    if b.len() == 0 {
        assert(a + b =~= a);
        assert(at_path(a, path) + at_path(b, path) =~= at_path(a, path));
    } else {
        assert((a + b).drop_last() =~= a + b.drop_last());
        lemma_at_path_add(a, b.drop_last(), path);
        assert(at_path(a + b, path) =~= at_path(a, path) + at_path(b, path));
    }
}

proof fn lemma_at_path_none(a: Seq<TreeFact>, path: Seq<char>)
    requires
        forall|i: int| 0 <= i < a.len() ==> (#[trigger] a[i]).path != path,
    ensures
        at_path(a, path) == Seq::<TreeFact>::empty(),
    decreases a.len(),
{
    if a.len() > 0 {
        assert(a[a.len() - 1].path != path);
        assert forall|i: int| 0 <= i < a.drop_last().len() implies (#[trigger] a.drop_last()[i]).path
            != path by {
            assert(a.drop_last()[i] == a[i]);
        }
        lemma_at_path_none(a.drop_last(), path);
    }
}

/// One more file, put before the files after it, keeps the order.
proof fn lemma_insert(sorted: Seq<TreeFact>, s: Seq<TreeFact>, e: TreeFact, n: int)
    requires
        is_order_of(sorted, s),
        0 <= n <= sorted.len(),
        n > 0 ==> !bytes::lex_less(path_bytes(e), path_bytes(sorted[n - 1])),
        forall|i: int|
            n <= i < sorted.len() ==> bytes::lex_less(path_bytes(e), path_bytes(
                #[trigger] sorted[i],
            )),
    ensures
        is_order_of(sorted.insert(n, e), s.push(e)),
{
    let t = sorted.insert(n, e);
    assert forall|i: int, j: int| 0 <= i < j < t.len() implies !bytes::lex_less(
        path_bytes(#[trigger] t[j]),
        path_bytes(#[trigger] t[i]),
    ) by {
        if j < n || i > n {
        } else if i < n && j > n {
        } else if j == n {
            // Nothing before it comes after it.
            let k = path_bytes(sorted[i]);
            if bytes::lex_less(path_bytes(e), k) {
                let l = path_bytes(sorted[n - 1]);
                if i < n - 1 {
                    bytes::lemma_lex_total(k, l);
                    if k != l {
                        bytes::lemma_lex_transitive(path_bytes(e), k, l);
                    }
                }
            }
        } else {
            let k = path_bytes(sorted[j - 1]);
            if bytes::lex_less(k, path_bytes(e)) {
                bytes::lemma_lex_transitive(k, path_bytes(e), k);
                bytes::lemma_lex_irreflexive(k);
            }
        }
    }
    assert forall|path: Seq<char>| #[trigger] at_path(t, path) == at_path(s.push(e), path) by {
        let (a, b) = (sorted.take(n), sorted.skip(n));
        assert(sorted =~= a + b);
        assert(t =~= a + seq![e] + b);
        lemma_at_path_add(a, b, path);
        lemma_at_path_add(a, seq![e], path);
        lemma_at_path_add(a + seq![e], b, path);
        assert(s.push(e).drop_last() =~= s);
        let one = seq![e];
        assert(one.drop_last() =~= Seq::<TreeFact>::empty());
        reveal_with_fuel(at_path, 2);
        if path == e.path {
            assert forall|i: int| 0 <= i < b.len() implies (#[trigger] b[i]).path != path by {
                assert(b[i] == sorted[n + i]);
                bytes::lemma_lex_irreflexive(path_bytes(e));
            }
            lemma_at_path_none(b, path);
            assert(at_path(one, path) =~= seq![e]);
            assert(at_path(t, path) =~= at_path(s, path).push(e));
        } else {
            assert(at_path(one, path) =~= Seq::<TreeFact>::empty());
            assert(at_path(t, path) =~= at_path(s, path));
        }
    }
}

/// The files in the order of their paths.
fn sort_entries(entries: &[TreeEntry]) -> (r: Vec<TreeEntry>)
    ensures
        is_order_of(listed(r@), listed(entries@)),
{
    let mut out: Vec<TreeEntry> = Vec::new();
    let ghost all = listed(entries@);
    let mut i: usize = 0;
    assert(listed(out@) =~= Seq::<TreeFact>::empty());
    assert(all.take(0) =~= Seq::<TreeFact>::empty());
    while i < entries.len()
        invariant
            i <= entries.len(),
            out@.len() == i,
            all == listed(entries@),
            is_order_of(listed(out@), all.take(i as int)),
        decreases entries.len() - i,
    {
        let e = copy_entry(&entries[i]);
        let ghost ev = e@;
        let ghost held = listed(out@);
        let mut n: usize = out.len();
        while n > 0 && bytes::bytes_less(e.path.as_str().as_bytes(), out[n - 1].path.as_str().as_bytes())
            invariant
                n <= out@.len(),
                held == listed(out@),
                ev == e@,
                forall|k: int|
                    n <= k < held.len() ==> bytes::lex_less(path_bytes(ev), path_bytes(
                        #[trigger] held[k],
                    )),
            decreases n,
        {
            n = n - 1;
        }
        assert(n > 0 ==> held[n - 1] == out@[n - 1]@);
        out.insert(n, e);
        proof {
            assert(listed(out@) =~= held.insert(n as int, ev));
            lemma_insert(held, all.take(i as int), ev, n as int);
            assert(all.take(i as int).push(ev) =~= all.take(i + 1));
        }
        i = i + 1;
    }
    assert(all.take(i as int) =~= all);
    out
}

/// Whether this is the hash of a tree of these files.
pub open spec fn is_tree_hash(hash: Seq<u8>, files: Seq<TreeFact>) -> bool {
    exists|sorted: Seq<TreeFact>|
        is_order_of(sorted, files) && hash == boundary::sha::sha256_of(
            #[trigger] listing_of(sorted),
        )
}

/// SHA-256 of the canonical listing of a working tree. Two equivalent trees
/// produce equal hashes, whatever the order in which their files were found.
#[must_use]
pub fn hash_working_tree(entries: &[TreeEntry]) -> (r: [u8; 32])
    ensures
        is_tree_hash(r@, listed(entries@)),
{
    let sorted = sort_entries(entries);
    let ghost sv = listed(sorted@);
    let mut out: Vec<u8> = Vec::new();
    let mut i: usize = 0;
    assert(sv.take(0) =~= Seq::<TreeFact>::empty());
    while i < sorted.len()
        invariant
            i <= sorted.len(),
            sv == listed(sorted@),
            out@ == listing_of(sv.take(i as int)),
        decreases sorted.len() - i,
    {
        let ghost before = out@;
        let p = sorted[i].path.as_str().as_bytes();
        bytes::append_le(&mut out, p.len() as u128, 8);
        bytes::append_bytes(&mut out, p);
        bytes::append_le(&mut out, sorted[i].mode as u128, 4);
        bytes::append_bytes(&mut out, sorted[i].blob_sha.as_slice());
        proof {
            assert(sv[i as int] == sorted@[i as int]@);
            assert(sv.take(i + 1).drop_last() =~= sv.take(i as int));
            assert(out@ =~= before + record_of(sv[i as int]));
        }
        i = i + 1;
    }
    assert(sv.take(i as int) =~= sv);
    boundary::sha::sha256(out.as_slice())
}

/// What the walk of a tree finds in a directory.
#[derive(Clone, Copy, Debug, PartialEq, Eq, Structural)]
pub enum NodeKind {
    /// A directory.
    Directory,
    /// A regular file.
    File,
    /// Anything else; symbolic links are neither followed nor recorded.
    Other,
}

/// What the walk of a tree does with what it found.
#[derive(Clone, Copy, Debug, PartialEq, Eq, Structural)]
pub enum WalkAction {
    /// Walk the directory too.
    Descend,
    /// List the file.
    Record,
    /// Leave it out.
    Skip,
}

/// Whether a name is among the excluded ones.
pub open spec fn is_excluded(name: Seq<char>, exclude_dirs: Seq<String>) -> bool {
    exists|i: int| 0 <= i < exclude_dirs.len() && (#[trigger] exclude_dirs[i])@ == name
}

/// What the walk of a tree does with one entry of a directory. Excluded names
/// are matched against directory names, not full paths.
#[must_use]
pub fn walk_action(kind: NodeKind, name: &str, exclude_dirs: &[String]) -> (r: WalkAction)
    ensures
        r == match kind {
            NodeKind::Directory => if is_excluded(name@, exclude_dirs@) {
                WalkAction::Skip
            } else {
                WalkAction::Descend
            },
            NodeKind::File => WalkAction::Record,
            NodeKind::Other => WalkAction::Skip,
        },
{
    match kind {
        NodeKind::File => WalkAction::Record,
        NodeKind::Other => WalkAction::Skip,
        NodeKind::Directory => {
            let mut i: usize = 0;
            while i < exclude_dirs.len()
                invariant
                    i <= exclude_dirs.len(),
                    kind is Directory,
                    forall|k: int| 0 <= k < i ==> (#[trigger] exclude_dirs@[k])@ != name@,
                decreases exclude_dirs.len() - i,
            {
                if text::str_eq(exclude_dirs[i].as_str(), name) {
                    assert(exclude_dirs@[i as int]@ == name@);
                    return WalkAction::Skip;
                }
                i = i + 1;
            }
            WalkAction::Descend
        },
    }
}

/// The mode a file is listed with: git's two-mode model. Executable where any
/// execute bit is set, else regular.
#[must_use]
pub fn canonical_mode(mode: u32) -> (r: u32)
    ensures
        r == if mode & 0o111 != 0 {
            0o100_755u32
        } else {
            0o100_644u32
        },
{
    let perms: u32 = mode & 0o777;
    assert((mode & 0o777) & 0o111 == mode & 0o111) by (bit_vector);
    if perms & 0o111 != 0 {
        0o100_755
    } else {
        0o100_644
    }
}

/// Names with a slash between each two.
pub open spec fn slashed(names: Seq<String>) -> Seq<char>
    decreases names.len(),
{
    if names.len() == 0 {
        Seq::empty()
    } else if names.len() == 1 {
        names[0]@
    } else {
        slashed(names.drop_last()) + seq!['/'] + names.last()@
    }
}

/// The path a file is listed under: the names on the way to it, with `/`
/// between them on every platform.
#[must_use]
pub fn path_to_unix(names: &[String]) -> (r: String)
    ensures
        r@ == slashed(names@),
{
    let mut out = String::new();
    let mut i: usize = 0;
    assert(names@.take(0) =~= Seq::<String>::empty());
    while i < names.len()
        invariant
            i <= names.len(),
            out@ == slashed(names@.take(i as int)),
        decreases names.len() - i,
    {
        let ghost before = out@;
        assert(names@.take(i + 1).drop_last() =~= names@.take(i as int));
        if i > 0 {
            out.push('/');
        }
        text::append_str(&mut out, names[i].as_str());
        if i == 0 {
            assert(out@ =~= names@[0]@);
        } else {
            assert(out@ =~= before + seq!['/'] + names@[i as int]@);
        }
        i = i + 1;
    }
    assert(names@.take(i as int) =~= names@);
    out
}

// ── Fetching ───────────────────────────────────────────────────────────────
/// What became of one `git` command.
#[derive(Clone, Debug, PartialEq, Eq)]
pub enum GitOutcome {
    /// It succeeded; carries stdout.
    Done(String),
    /// There is no `git` on `PATH`.
    NotFound,
    /// It could not be run; carries the error's text.
    Io(String),
    /// It exited with a non-zero status; carries stderr.
    NonZero(String),
}

/// Where a fetch is.
#[derive(Clone, Debug, PartialEq, Eq)]
pub enum FetchStage {
    /// The next command clones the repository into the working directory.
    Clone,
    /// The next command checks the reference out.
    Checkout,
    /// The next command resolves `HEAD`.
    Resolve,
    /// The commands are done; the tree is hashed next.
    Hash {
        /// What `HEAD` resolved to.
        resolved_sha: String,
    },
}

/// The arguments of the command of a stage.
pub open spec fn arguments_of(
    stage: FetchStage,
    url: Seq<char>,
    reference: Seq<char>,
) -> Seq<Seq<char>> {
    match stage {
        FetchStage::Clone => seq!["clone"@, url, "."@],
        FetchStage::Checkout => seq!["checkout"@, reference],
        FetchStage::Resolve => seq!["rev-parse"@, "HEAD"@],
        FetchStage::Hash { .. } => seq![],
    }
}

/// What a list of strings says.
pub open spec fn strings(v: Seq<String>) -> Seq<Seq<char>> {
    v.map_values(|s: String| s@)
}

/// The arguments that `git` is run with at a stage; none where the commands are
/// done.
#[must_use]
pub fn git_arguments(stage: &FetchStage, url: &str, reference: &str) -> (r: Vec<String>)
    ensures
        strings(r@) == arguments_of(*stage, url@, reference@),
{
    let mut out: Vec<String> = Vec::new();
    match stage {
        FetchStage::Clone => {
            out.push("clone".to_owned());
            out.push(url.to_owned());
            out.push(".".to_owned());
        },
        FetchStage::Checkout => {
            out.push("checkout".to_owned());
            out.push(reference.to_owned());
        },
        FetchStage::Resolve => {
            out.push("rev-parse".to_owned());
            out.push("HEAD".to_owned());
        },
        FetchStage::Hash { .. } => {},
    }
    assert(strings(out@) =~= arguments_of(*stage, url@, reference@));
    out
}

/// The error of a command of a stage that exited with a non-zero status.
pub open spec fn refused(stage: FetchStage, stderr: Seq<char>) -> FetchFault {
    match stage {
        FetchStage::Clone => FetchFault::CloneFailed(stderr),
        FetchStage::Checkout => FetchFault::CheckoutFailed(stderr),
        _ => FetchFault::ResolveFailed(stderr),
    }
}

/// What follows a command: the next stage, or the error that ends the fetch.
/// A fetch whose commands are done stays so.
///
/// # Errors
///
/// Where there is no `git`, it could not be run, or it refused.
pub fn after_git(stage: FetchStage, outcome: GitOutcome) -> (r: Result<
    FetchStage,
    SourceFetchError,
>)
    ensures
        stage is Hash ==> r == Ok::<FetchStage, SourceFetchError>(stage),
        !(stage is Hash) ==> match outcome {
            GitOutcome::Done(stdout) => match r {
                Ok(next) => match stage {
                    FetchStage::Clone => next == FetchStage::Checkout,
                    FetchStage::Checkout => next == FetchStage::Resolve,
                    _ => next matches FetchStage::Hash { resolved_sha } && resolved_sha@
                        == text::trimmed(stdout@),
                },
                Err(_) => false,
            },
            GitOutcome::NotFound => r matches Err(e) && e@ == FetchFault::GitNotFound,
            GitOutcome::Io(s) => r matches Err(e) && e@ == FetchFault::Io(s@),
            GitOutcome::NonZero(s) => r matches Err(e) && e@ == refused(stage, s@),
        },
{
    match stage {
        FetchStage::Hash { resolved_sha } => Ok(FetchStage::Hash { resolved_sha }),
        FetchStage::Clone => match outcome {
            GitOutcome::Done(_) => Ok(FetchStage::Checkout),
            GitOutcome::NonZero(s) => Err(SourceFetchError::CloneFailed(s)),
            GitOutcome::NotFound => Err(SourceFetchError::GitNotFound),
            GitOutcome::Io(s) => Err(SourceFetchError::Io(s)),
        },
        FetchStage::Checkout => match outcome {
            GitOutcome::Done(_) => Ok(FetchStage::Resolve),
            GitOutcome::NonZero(s) => Err(SourceFetchError::CheckoutFailed(s)),
            GitOutcome::NotFound => Err(SourceFetchError::GitNotFound),
            GitOutcome::Io(s) => Err(SourceFetchError::Io(s)),
        },
        FetchStage::Resolve => match outcome {
            GitOutcome::Done(stdout) => {
                let chars = text::chars_of(stdout.as_str());
                let t = text::trim(chars.as_slice());
                Ok(FetchStage::Hash { resolved_sha: text::string_of(t.as_slice()) })
            },
            GitOutcome::NonZero(s) => Err(SourceFetchError::ResolveFailed(s)),
            GitOutcome::NotFound => Err(SourceFetchError::GitNotFound),
            GitOutcome::Io(s) => Err(SourceFetchError::Io(s)),
        },
    }
}

/// The stage whose command is run after so many others.
pub open spec fn stage_at(n: int) -> FetchStage {
    if n == 0 {
        FetchStage::Clone
    } else if n == 1 {
        FetchStage::Checkout
    } else {
        FetchStage::Resolve
    }
}

/// Whether running the command of a stage can come out so.
pub open spec fn can_run<G: Fn(&Vec<String>) -> GitOutcome>(
    git: G,
    stage: FetchStage,
    url: Seq<char>,
    reference: Seq<char>,
    outcome: GitOutcome,
) -> bool {
    exists|args: Vec<String>|
        strings(args@) == arguments_of(stage, url, reference) && #[trigger] git.ensures(
            (&args,),
            outcome,
        )
}

/// Whether walking the tree past `.git` can find this.
pub open spec fn can_walk<W: Fn(&Vec<String>) -> Result<Vec<TreeEntry>, String>>(
    walk: W,
    found: Result<Vec<TreeEntry>, String>,
) -> bool {
    exists|exclude: Vec<String>|
        strings(exclude@) == seq![".git"@] && #[trigger] walk.ensures((&exclude,), found)
}

/// Whether these outcomes of the commands, and what a walk found behind the last
/// of them, make this the result of a fetch.
pub open spec fn is_fetch(
    outcomes: Seq<GitOutcome>,
    found: Option<Result<Vec<TreeEntry>, String>>,
    r: Result<SourceFetchOutput, SourceFetchError>,
) -> bool {
    &&& 0 < outcomes.len() <= 3
    &&& forall|i: int| 0 <= i < outcomes.len() - 1 ==> #[trigger] outcomes[i] is Done
    &&& match outcomes.last() {
        GitOutcome::NotFound => found is None && (r matches Err(e) && e@
            == FetchFault::GitNotFound),
        GitOutcome::Io(s) => found is None && (r matches Err(e) && e@ == FetchFault::Io(s@)),
        GitOutcome::NonZero(s) => found is None && (r matches Err(e) && e@ == refused(
            stage_at(outcomes.len() - 1),
            s@,
        )),
        GitOutcome::Done(stdout) => outcomes.len() == 3 && match found {
            None => false,
            Some(Err(s)) => r matches Err(e) && e@ == FetchFault::Io(s@),
            Some(Ok(entries)) => r matches Ok(out) && out.resolved_sha@ == text::trimmed(stdout@)
                && is_tree_hash(out.tree_hash@, listed(entries@)),
        },
    }
}

/// Fetch a reference of a repository: clone, check the reference out, resolve
/// `HEAD`, and hash the tree without `.git`. `git` runs one command in the
/// working directory, and `walk` lists the files below it.
///
/// # Errors
///
/// Where there is no `git`, a command could not be run or refused, or the walk
/// failed.
pub fn execute_source_fetch<
    G: Fn(&Vec<String>) -> GitOutcome,
    W: Fn(&Vec<String>) -> Result<Vec<TreeEntry>, String>,
>(url: &str, reference: &str, git: G, walk: W) -> (r: Result<SourceFetchOutput, SourceFetchError>)
    requires
        forall|args: &Vec<String>| git.requires((args,)),
        forall|exclude: &Vec<String>| walk.requires((exclude,)),
    ensures
        exists|outcomes: Seq<GitOutcome>, found: Option<Result<Vec<TreeEntry>, String>>|
            #[trigger] is_fetch(outcomes, found, r) && (forall|i: int|
                0 <= i < outcomes.len() ==> can_run(
                    git,
                    stage_at(i),
                    url@,
                    reference@,
                    #[trigger] outcomes[i],
                )) && (found matches Some(f) ==> can_walk(walk, f)),
{
    let ghost mut outcomes: Seq<GitOutcome> = Seq::empty();
    let mut stage = FetchStage::Clone;
    loop
        invariant
            forall|args: &Vec<String>| git.requires((args,)),
            forall|exclude: &Vec<String>| walk.requires((exclude,)),
            outcomes.len() <= 3,
            stage is Hash <==> outcomes.len() == 3,
            outcomes.len() < 3 ==> stage == stage_at(outcomes.len() as int),
            forall|i: int| 0 <= i < outcomes.len() ==> #[trigger] outcomes[i] is Done,
            forall|i: int|
                0 <= i < outcomes.len() ==> can_run(
                    git,
                    stage_at(i),
                    url@,
                    reference@,
                    #[trigger] outcomes[i],
                ),
            stage matches FetchStage::Hash { resolved_sha } ==> (outcomes[2] matches GitOutcome::Done(
                stdout,
            ) && resolved_sha@ == text::trimmed(stdout@)),
        decreases 3 - outcomes.len(),
    {
        if let FetchStage::Hash { resolved_sha } = stage {
            let mut exclude: Vec<String> = Vec::new();
            exclude.push(".git".to_owned());
            assert(strings(exclude@) =~= seq![".git"@]);
            let found = walk(&exclude);
            let ghost seen = Some(found);
            assert(can_walk(walk, found));
            let r: Result<SourceFetchOutput, SourceFetchError> = match found {
                Ok(entries) => {
                    let tree_hash = hash_working_tree(entries.as_slice());
                    Ok(SourceFetchOutput { resolved_sha, tree_hash })
                },
                Err(s) => Err(SourceFetchError::Io(s)),
            };
            assert(is_fetch(outcomes, seen, r));
            return r;
        }
        let args = git_arguments(&stage, url, reference);
        let outcome = git(&args);
        let ghost before = outcomes;
        proof {
            outcomes = outcomes.push(outcome);
            assert(can_run(git, stage, url@, reference@, outcome));
            assert forall|i: int| 0 <= i < before.len() implies outcomes[i] == before[i] by {}
        }
        match after_git(stage, outcome) {
            Ok(next) => {
                stage = next;
            },
            Err(e) => {
                let r: Result<SourceFetchOutput, SourceFetchError> = Err(e);
                assert(is_fetch(outcomes, None, r));
                return r;
            },
        }
    }
}

/// The bytes that the output hash of a fetch covers.
pub open spec fn output_bytes(resolved_sha: Seq<char>, tree_hash: Seq<u8>) -> Seq<u8> {
    let sha = vstd::utf8::encode_utf8(resolved_sha);
    bytes::le_of(sha.len(), 8) + sha + tree_hash
}

/// Output hash of a fetch. Binds both the resolved commit and the tree hash, so
/// that a committee member that resolved a moving branch to a different commit
/// produces a divergent value even if the trees are alike.
#[must_use]
pub fn output_hash(out: &SourceFetchOutput) -> (r: [u8; 32])
    ensures
        r@ == boundary::sha::sha256_of(output_bytes(out.resolved_sha@, out.tree_hash@)),
{
    let mut data: Vec<u8> = Vec::new();
    let sha = out.resolved_sha.as_str().as_bytes();
    bytes::append_le(&mut data, sha.len() as u128, 8);
    bytes::append_bytes(&mut data, sha);
    bytes::append_bytes(&mut data, out.tree_hash.as_slice());
    assert(data@ =~= output_bytes(out.resolved_sha@, out.tree_hash@));
    boundary::sha::sha256(data.as_slice())
}

// ── Laws ───────────────────────────────────────────────────────────────────
proof fn lemma_at_path_contains(s: Seq<TreeFact>, i: int)
    requires
        0 <= i < s.len(),
    ensures
        at_path(s, s[i].path).contains(s[i]),
    decreases s.len(),
{
    let path = s[i].path;
    let front = at_path(s.drop_last(), path);
    if i == s.len() - 1 {
        assert(at_path(s, path)[front.len() as int] == s[i]);
    } else {
        lemma_at_path_contains(s.drop_last(), i);
        assert(s.drop_last()[i] == s[i]);
        let k = choose|k: int| 0 <= k < front.len() && front[k] == s[i];
        assert(at_path(s, path)[k] == s[i]);
    }
}

proof fn lemma_at_path_from(s: Seq<TreeFact>, path: Seq<char>, x: TreeFact)
    requires
        at_path(s, path).contains(x),
    ensures
        s.contains(x),
        x.path == path,
    decreases s.len(),
{
    if s.len() > 0 {
        let front = at_path(s.drop_last(), path);
        if front.contains(x) {
            lemma_at_path_from(s.drop_last(), path, x);
            let i = choose|i: int| 0 <= i < s.drop_last().len() && s.drop_last()[i] == x;
            assert(s[i] == x);
        } else {
            let k = choose|k: int| 0 <= k < at_path(s, path).len() && at_path(s, path)[k] == x;
            assert(k == front.len());
            assert(s[s.len() - 1] == x);
        }
    }
}

proof fn lemma_same_bytes_same_path(a: Seq<char>, b: Seq<char>)
    requires
        vstd::utf8::encode_utf8(a) == vstd::utf8::encode_utf8(b),
    ensures
        a == b,
{
    vstd::utf8::encode_utf8_decode_utf8(a);
    vstd::utf8::encode_utf8_decode_utf8(b);
}

proof fn lemma_orders_agree(a: Seq<TreeFact>, b: Seq<TreeFact>)
    requires
        paths_ascend(a),
        paths_ascend(b),
        forall|path: Seq<char>| #[trigger] at_path(a, path) == at_path(b, path),
    ensures
        a == b,
    decreases a.len(),
{
    if a.len() == 0 {
        if b.len() > 0 {
            lemma_at_path_contains(b, 0);
            assert(at_path(a, b[0].path).len() == 0);
        }
        assert(a =~= b);
    } else {
        lemma_at_path_contains(a, a.len() - 1);
        lemma_at_path_from(b, a.last().path, a.last());
        lemma_at_path_contains(b, b.len() - 1);
        lemma_at_path_from(a, b.last().path, b.last());
        let j = choose|j: int| 0 <= j < b.len() && b[j] == a.last();
        let i = choose|i: int| 0 <= i < a.len() && a[i] == b.last();
        bytes::lemma_lex_total(path_bytes(a.last()), path_bytes(b.last()));
        if j < b.len() - 1 {
            assert(!bytes::lex_less(path_bytes(b[b.len() - 1]), path_bytes(b[j])));
        }
        if i < a.len() - 1 {
            assert(!bytes::lex_less(path_bytes(a[a.len() - 1]), path_bytes(a[i])));
        }
        if path_bytes(a.last()) != path_bytes(b.last()) {
            bytes::lemma_lex_irreflexive(path_bytes(a.last()));
        }
        lemma_same_bytes_same_path(a.last().path, b.last().path);
        let path = a.last().path;
        assert(at_path(a, path).last() == a.last());
        assert(at_path(b, path).last() == b.last());
        assert forall|p: Seq<char>| #[trigger] at_path(a.drop_last(), p) == at_path(
            b.drop_last(),
            p,
        ) by {
            assert(at_path(a, p) == at_path(b, p));
            if p == path {
                assert(at_path(a, p).drop_last() =~= at_path(a.drop_last(), p));
                assert(at_path(b, p).drop_last() =~= at_path(b.drop_last(), p));
            }
        }
        assert(paths_ascend(a.drop_last()));
        assert(paths_ascend(b.drop_last()));
        lemma_orders_agree(a.drop_last(), b.drop_last());
        assert(a =~= a.drop_last().push(a.last()));
        assert(b =~= b.drop_last().push(b.last()));
    }
}

/// The order of the paths is one order: a tree has one listing.
pub proof fn law_order_is_unique(s: Seq<TreeFact>, a: Seq<TreeFact>, b: Seq<TreeFact>)
    requires
        is_order_of(a, s),
        is_order_of(b, s),
    ensures
        a == b,
{
    assert forall|path: Seq<char>| #[trigger] at_path(a, path) == at_path(b, path) by {
        assert(at_path(b, path) == at_path(s, path));
    }
    lemma_orders_agree(a, b);
}

/// Whether no path occurs twice.
pub open spec fn paths_differ(s: Seq<TreeFact>) -> bool {
    forall|i: int, j: int| 0 <= i < j < s.len() ==> (#[trigger] s[i]).path != (#[trigger] s[j]).path
}

proof fn lemma_at_path_single(s: Seq<TreeFact>, i: int)
    requires
        paths_differ(s),
        0 <= i < s.len(),
    ensures
        at_path(s, s[i].path) == seq![s[i]],
    decreases s.len(),
{
    let path = s[i].path;
    if i == s.len() - 1 {
        assert forall|k: int| 0 <= k < s.drop_last().len() implies (#[trigger] s.drop_last()[k]).path
            != path by {
            assert(s.drop_last()[k] == s[k]);
        }
        lemma_at_path_none(s.drop_last(), path);
        assert(at_path(s, path) =~= seq![s[i]]);
    } else {
        assert(s.drop_last()[i] == s[i]);
        assert(paths_differ(s.drop_last()));
        lemma_at_path_single(s.drop_last(), i);
        assert(s[s.len() - 1].path != s[i].path);
    }
}

/// The order in which the files were found is irrelevant: two walks that found
/// the same files list them alike.
pub proof fn law_traversal_order_is_irrelevant(
    s: Seq<TreeFact>,
    t: Seq<TreeFact>,
    a: Seq<TreeFact>,
    b: Seq<TreeFact>,
)
    requires
        paths_differ(s),
        paths_differ(t),
        s.to_set() == t.to_set(),
        is_order_of(a, s),
        is_order_of(b, t),
    ensures
        listing_of(a) == listing_of(b),
{
    assert forall|path: Seq<char>| #[trigger] at_path(s, path) == at_path(t, path) by {
        if exists|i: int| 0 <= i < s.len() && (#[trigger] s[i]).path == path {
            let i = choose|i: int| 0 <= i < s.len() && (#[trigger] s[i]).path == path;
            assert(s.to_set().contains(s[i]));
            assert(t.to_set().contains(s[i]));
            let j = choose|j: int| 0 <= j < t.len() && t[j] == s[i];
            lemma_at_path_single(s, i);
            lemma_at_path_single(t, j);
        } else {
            assert forall|j: int| 0 <= j < t.len() implies (#[trigger] t[j]).path != path by {
                assert(t.to_set().contains(t[j]));
                assert(s.to_set().contains(t[j]));
                let i = choose|i: int| 0 <= i < s.len() && s[i] == t[j];
                assert(s[i].path != path);
            }
            lemma_at_path_none(s, path);
            lemma_at_path_none(t, path);
        }
    }
    assert forall|path: Seq<char>| #[trigger] at_path(b, path) == at_path(s, path) by {
        assert(at_path(b, path) == at_path(t, path));
        assert(at_path(s, path) == at_path(t, path));
    }
    law_order_is_unique(s, a, b);
}

/// Whether a file can be listed: its blob is a SHA-256 and the length of its
/// path fits eight bytes.
pub open spec fn is_listable(e: TreeFact) -> bool {
    e.blob_sha.len() == 32 && path_bytes(e).len() <= u64::MAX
}

proof fn lemma_listing_front(s: Seq<TreeFact>)
    requires
        s.len() > 0,
    ensures
        listing_of(s) == record_of(s[0]) + listing_of(s.skip(1)),
    decreases s.len(),
{
    if s.len() == 1 {
        assert(s.drop_last() =~= Seq::<TreeFact>::empty());
        assert(s.skip(1) =~= Seq::<TreeFact>::empty());
        reveal_with_fuel(listing_of, 2);
        assert(listing_of(s) =~= record_of(s[0]) + listing_of(s.skip(1)));
    } else {
        lemma_listing_front(s.drop_last());
        assert(s.drop_last().skip(1) =~= s.skip(1).drop_last());
        assert(s.skip(1).last() == s.last());
        assert(listing_of(s) =~= record_of(s[0]) + listing_of(s.skip(1)));
    }
}

proof fn lemma_pow_256()
    ensures
        vstd::arithmetic::power::pow(256, 8) == 0x1_0000_0000_0000_0000,
        vstd::arithmetic::power::pow(256, 4) == 0x1_0000_0000,
{
    reveal(vstd::arithmetic::power::pow);
    reveal_with_fuel(vstd::arithmetic::power::pow, 9);
}

/// Different listings are written differently: any difference in a path, a mode
/// or a blob, and any file more or less, changes the bytes that are hashed.
pub proof fn law_listing_is_injective(a: Seq<TreeFact>, b: Seq<TreeFact>)
    requires
        forall|i: int| 0 <= i < a.len() ==> is_listable(#[trigger] a[i]),
        forall|i: int| 0 <= i < b.len() ==> is_listable(#[trigger] b[i]),
        listing_of(a) == listing_of(b),
    ensures
        a == b,
    decreases a.len(),
{
    if a.len() > 0 {
        lemma_listing_front(a);
        bytes::law_le_round_trip(path_bytes(a[0]).len(), 8);
    }
    if b.len() > 0 {
        lemma_listing_front(b);
        bytes::law_le_round_trip(path_bytes(b[0]).len(), 8);
    }
    if a.len() == 0 || b.len() == 0 {
        assert(a.len() == 0 && b.len() == 0);
        assert(a =~= b);
    } else {
        let s = listing_of(a);
        let (x, y) = (a[0], b[0]);
        let (ra, rb) = (record_of(x), record_of(y));
        let (px, py) = (path_bytes(x), path_bytes(y));
        lemma_pow_256();
        bytes::law_le_round_trip(x.mode as nat, 4);
        bytes::law_le_round_trip(y.mode as nat, 4);
        assert(s.take(8) =~= bytes::le_of(px.len(), 8));
        assert(s.take(8) =~= bytes::le_of(py.len(), 8));
        let n = px.len() as int;
        assert(px.len() == py.len());
        assert(s.subrange(8, 8 + n) =~= px);
        assert(s.subrange(8, 8 + n) =~= py);
        lemma_same_bytes_same_path(x.path, y.path);
        assert(s.subrange(8 + n, 12 + n) =~= bytes::le_of(x.mode as nat, 4));
        assert(s.subrange(8 + n, 12 + n) =~= bytes::le_of(y.mode as nat, 4));
        assert(s.subrange(12 + n, 44 + n) =~= x.blob_sha);
        assert(s.subrange(12 + n, 44 + n) =~= y.blob_sha);
        assert(s.skip(44 + n) =~= listing_of(a.skip(1)));
        assert(s.skip(44 + n) =~= listing_of(b.skip(1)));
        assert forall|i: int| 0 <= i < a.skip(1).len() implies is_listable(
            #[trigger] a.skip(1)[i],
        ) by {
            assert(a.skip(1)[i] == a[i + 1]);
        }
        assert forall|i: int| 0 <= i < b.skip(1).len() implies is_listable(
            #[trigger] b.skip(1)[i],
        ) by {
            assert(b.skip(1)[i] == b[i + 1]);
        }
        law_listing_is_injective(a.skip(1), b.skip(1));
        assert(a =~= seq![x] + a.skip(1));
        assert(b =~= seq![y] + b.skip(1));
    }
}

/// A different commit or a different tree changes the bytes that the output
/// hash covers.
pub proof fn law_output_binds_commit_and_tree(
    sha_a: Seq<char>,
    tree_a: Seq<u8>,
    sha_b: Seq<char>,
    tree_b: Seq<u8>,
)
    requires
        vstd::utf8::encode_utf8(sha_a).len() <= u64::MAX,
        vstd::utf8::encode_utf8(sha_b).len() <= u64::MAX,
        output_bytes(sha_a, tree_a) == output_bytes(sha_b, tree_b),
    ensures
        sha_a == sha_b,
        tree_a == tree_b,
{
    let s = output_bytes(sha_a, tree_a);
    let (x, y) = (vstd::utf8::encode_utf8(sha_a), vstd::utf8::encode_utf8(sha_b));
    lemma_pow_256();
    bytes::law_le_round_trip(x.len(), 8);
    bytes::law_le_round_trip(y.len(), 8);
    assert(s.take(8) =~= bytes::le_of(x.len(), 8));
    assert(s.take(8) =~= bytes::le_of(y.len(), 8));
    let n = x.len() as int;
    assert(s.subrange(8, 8 + n) =~= x);
    assert(s.subrange(8, 8 + n) =~= y);
    lemma_same_bytes_same_path(sha_a, sha_b);
    assert(s.skip(8 + n) =~= tree_a);
    assert(s.skip(8 + n) =~= tree_b);
}

/// A listing is made file by file: that of two runs of files is the one behind the
/// other, and that of a file is its path's length, its path, its mode and its hash.
pub proof fn law_listing_is_joined(a: Seq<TreeFact>, b: Seq<TreeFact>, e: TreeFact)
    ensures
        listing_of(Seq::<TreeFact>::empty()).len() == 0,
        listing_of(a + b) == listing_of(a) + listing_of(b),
        listing_of(seq![e]) == bytes::le_of(vstd::utf8::encode_utf8(e.path).len(), 8)
            + vstd::utf8::encode_utf8(e.path) + bytes::le_of(e.mode as nat, 4) + e.blob_sha,
    decreases b.len(),
{
    assert(seq![e].drop_last() =~= Seq::<TreeFact>::empty());
    reveal_with_fuel(listing_of, 2);
    assert(listing_of(seq![e]) =~= record_of(e));
    if b.len() > 0 {
        law_listing_is_joined(a, b.drop_last(), e);
        assert((a + b).drop_last() =~= a + b.drop_last());
        assert(listing_of(a + b) =~= listing_of(a) + listing_of(b));
    } else {
        assert(a + b =~= a);
        assert(listing_of(a + b) =~= listing_of(a) + listing_of(b));
    }
}

proof fn lemma_count_at_path(s: Seq<TreeFact>, e: TreeFact)
    ensures
        s.to_multiset().count(e) == at_path(s, e.path).to_multiset().count(e),
    decreases s.len(),
{
    broadcast use vstd::seq_lib::group_to_multiset_ensures;

    if s.len() > 0 {
        let less = s.drop_last();
        lemma_count_at_path(less, e);
        assert(s =~= less.push(s.last()));
        assert(s.to_multiset() =~= less.to_multiset().insert(s.last()));
        if s.last().path == e.path {
            assert(at_path(s, e.path).to_multiset() =~= at_path(
                less,
                e.path,
            ).to_multiset().insert(s.last()));
        }
    } else {
        assert(s =~= at_path(s, e.path));
    }
}

/// Sorting the files of a tree drops none, adds none and changes none: every file
/// is listed as often as it was found, and no path stands before a smaller one.
pub proof fn law_every_file_is_listed(sorted: Seq<TreeFact>, s: Seq<TreeFact>, i: int, j: int)
    requires
        is_order_of(sorted, s),
        0 <= i < j < sorted.len(),
    ensures
        sorted.to_multiset() == s.to_multiset(),
        sorted.len() == s.len(),
        !bytes::lex_less(
            vstd::utf8::encode_utf8(sorted[j].path),
            vstd::utf8::encode_utf8(sorted[i].path),
        ),
{
    broadcast use vstd::seq_lib::group_to_multiset_ensures;

    assert forall|e: TreeFact| sorted.to_multiset().count(e) == s.to_multiset().count(e) by {
        lemma_count_at_path(sorted, e);
        lemma_count_at_path(s, e);
        assert(at_path(sorted, e.path) == at_path(s, e.path));
    }
    assert(sorted.to_multiset() =~= s.to_multiset());
    assert(sorted.to_multiset().len() == sorted.len());
    assert(s.to_multiset().len() == s.len());
    assert(!bytes::lex_less(path_bytes(sorted[j]), path_bytes(sorted[i])));
}

/// A path is its names with a slash between each two.
pub proof fn law_names_are_joined_by_slashes(a: Seq<String>, b: Seq<String>, name: String)
    ensures
        slashed(Seq::<String>::empty()).len() == 0,
        slashed(seq![name]) == name@,
        a.len() > 0 && b.len() > 0 ==> slashed(a + b) == slashed(a) + seq!['/'] + slashed(b),
    decreases b.len(),
{
    if a.len() > 0 && b.len() > 0 {
        assert((a + b).drop_last() =~= a + b.drop_last());
        if b.len() > 1 {
            law_names_are_joined_by_slashes(a, b.drop_last(), name);
            assert(slashed(a + b) =~= slashed(a) + seq!['/'] + slashed(b));
        } else {
            assert(a + b.drop_last() =~= a);
        }
    }
}

/// A fetch succeeds exactly if all three commands do and the tree can be read; else
/// the first that fails says why.
pub proof fn law_first_failure_ends_the_fetch(
    outcomes: Seq<GitOutcome>,
    found: Option<Result<Vec<TreeEntry>, String>>,
    r: Result<SourceFetchOutput, SourceFetchError>,
)
    requires
        is_fetch(outcomes, found, r),
    ensures
        r is Ok <==> outcomes.len() == 3 && outcomes[2] is Done && found matches Some(Ok(_)),
        r is Ok ==> outcomes[0] is Done && outcomes[1] is Done && r->Ok_0.resolved_sha@
            == text::trimmed(outcomes[2]->Done_0@),
        outcomes[0] is NotFound ==> outcomes.len() == 1 && (r matches Err(e) && e is GitNotFound),
        outcomes[0] matches GitOutcome::NonZero(s) ==> outcomes.len() == 1 && (
        r matches Err(SourceFetchError::CloneFailed(t)) && t@ == s@),
        outcomes.len() >= 2 && outcomes[1] is NonZero ==> outcomes.len() == 2 && (
        r matches Err(SourceFetchError::CheckoutFailed(t)) && t@ == outcomes[1]->NonZero_0@),
        outcomes.len() == 3 && outcomes[2] is NonZero ==> (
        r matches Err(SourceFetchError::ResolveFailed(t)) && t@ == outcomes[2]->NonZero_0@),
        found matches Some(Err(s)) ==> (r matches Err(SourceFetchError::Io(t)) && t@ == s@),
{
    assert(outcomes.len() > 1 ==> outcomes[0] is Done);
    assert(outcomes.len() > 2 ==> outcomes[1] is Done);
    if let Err(e) = r {
        assert(e@ == e.view());
    }
}

/// The commit is fetched by its clone, its checkout and its name, in these words.
pub proof fn law_git_is_asked(url: Seq<char>, reference: Seq<char>)
    ensures
        arguments_of(FetchStage::Clone, url, reference) == seq!["clone"@, url, "."@],
        arguments_of(FetchStage::Checkout, url, reference) == seq!["checkout"@, reference],
        arguments_of(FetchStage::Resolve, url, reference) == seq!["rev-parse"@, "HEAD"@],
{
}

} // verus!
