//! The resolution engine. The walk over the manifest graph is a state
//! machine: it asks for one filesystem fact at a time (canonicalize a
//! path, probe a path's kind, parse a manifest file) and an unverified
//! driver answers with an `Event`. Every decision — the normalization
//! fallback chain, skipping remote references, recording generator
//! files as leaves, depth-first ordering, the revisit guard — is made
//! here and is verified: `run` is proved equal to the mathematical
//! transition function `engine_step`.

use vstd::prelude::*;

use crate::classify::is_remote;
use crate::classify::unsupported;
use crate::paths::join;
use crate::paths::join_spec;
use crate::paths::parent_dir;
use crate::paths::parent_spec;
use crate::paths::set_yaml_ext;
use crate::paths::set_yaml_spec;

verus! {

/// What a filesystem probe reports for a path: a directory, a regular
/// file, or anything else (including nothing at all).
#[derive(Clone, Copy, PartialEq, Eq, Structural)]
pub enum PathKind {
    Dir,
    File,
    Other,
}

/// Why reading-and-parsing a manifest file failed.
#[derive(Clone, Copy, PartialEq, Eq, Structural)]
pub enum FailKind {
    Io,
    Parse,
}

/// The projection of one parsed document: its resource references and
/// the local files its generator declarations contribute. A document
/// without these fields is the manifest with both sequences empty.
pub struct Manifest {
    pub resources: Vec<String>,
    pub generated_files: Vec<String>,
}

pub struct ManifestV {
    pub resources: Seq<Seq<char>>,
    pub generated_files: Seq<Seq<char>>,
}

impl View for Manifest {
    type V = ManifestV;

    open spec fn view(&self) -> ManifestV {
        ManifestV {
            resources: self.resources.deep_view(),
            generated_files: self.generated_files.deep_view(),
        }
    }
}

/// A filesystem fact the driver was asked for.
pub enum Event {
    /// The canonical absolute form of a path, or nothing when the path
    /// does not exist.
    Canonical(Option<String>),
    /// The kind of an existing canonical path.
    Kind(PathKind),
    /// The documents parsed out of a manifest file, or why that failed.
    Docs(Result<Vec<Manifest>, FailKind>),
}

pub enum EventV {
    Canonical(Option<Seq<char>>),
    Kind(PathKind),
    Docs(Result<Seq<ManifestV>, FailKind>),
}

impl View for Event {
    type V = EventV;

    open spec fn view(&self) -> EventV {
        match self {
            Event::Canonical(o) => EventV::Canonical(
                match o {
                    Option::Some(s) => Option::Some(s@),
                    Option::None => Option::None,
                },
            ),
            Event::Kind(k) => EventV::Kind(*k),
            Event::Docs(r) => EventV::Docs(
                match r {
                    Result::Ok(v) => Result::Ok(v@.map_values(|m: Manifest| m@)),
                    Result::Err(e) => Result::Err(*e),
                },
            ),
        }
    }
}

/// What the engine wants to know next.
pub enum Query {
    /// Canonicalize this path against the filesystem.
    Canonicalize(String),
    /// Report the kind of this canonical path.
    Probe(String),
    /// Read this file and parse it into documents.
    Parse(String),
}

pub enum QueryV {
    Canonicalize(Seq<char>),
    Probe(Seq<char>),
    Parse(Seq<char>),
}

impl View for Query {
    type V = QueryV;

    open spec fn view(&self) -> QueryV {
        match self {
            Query::Canonicalize(s) => QueryV::Canonicalize(s@),
            Query::Probe(s) => QueryV::Probe(s@),
            Query::Parse(s) => QueryV::Parse(s@),
        }
    }
}

/// An unrecoverable failure of a run, carrying the path it concerns.
#[derive(Debug)]
pub enum ResolveError {
    /// A candidate could not be normalized to an existing manifest
    /// file after all fallbacks; carries the originally requested path.
    NotFound(String),
    /// A manifest file's content is not valid structured text.
    ParseError(String),
    /// A manifest file exists but could not be read.
    IoError(String),
}

pub enum ResolveErrorV {
    NotFound(Seq<char>),
    ParseError(Seq<char>),
    IoError(Seq<char>),
}

impl View for ResolveError {
    type V = ResolveErrorV;

    open spec fn view(&self) -> ResolveErrorV {
        match self {
            ResolveError::NotFound(s) => ResolveErrorV::NotFound(s@),
            ResolveError::ParseError(s) => ResolveErrorV::ParseError(s@),
            ResolveError::IoError(s) => ResolveErrorV::IoError(s@),
        }
    }
}

/// Where normalization of one candidate stands. Each state is waiting
/// for exactly one answer from the driver.
pub enum NormState {
    /// Waiting for the canonical form of `candidate`.
    Start { candidate: String },
    /// Waiting for the kind of the canonical path.
    AtCanonical { candidate: String, canonical: String },
    /// The canonical path was a directory; waiting for the kind of
    /// `current`, the directory's default manifest file.
    TryDefault { candidate: String, current: String },
    /// Waiting for the kind of `current`, the alternate-extension
    /// fallback.
    TryAlternate { candidate: String, current: String },
}

pub enum NormStateV {
    Start { candidate: Seq<char> },
    AtCanonical { candidate: Seq<char>, canonical: Seq<char> },
    TryDefault { candidate: Seq<char>, current: Seq<char> },
    TryAlternate { candidate: Seq<char>, current: Seq<char> },
}

impl View for NormState {
    type V = NormStateV;

    open spec fn view(&self) -> NormStateV {
        match self {
            NormState::Start { candidate } => NormStateV::Start { candidate: candidate@ },
            NormState::AtCanonical { candidate, canonical } => NormStateV::AtCanonical {
                candidate: candidate@,
                canonical: canonical@,
            },
            NormState::TryDefault { candidate, current } => NormStateV::TryDefault {
                candidate: candidate@,
                current: current@,
            },
            NormState::TryAlternate { candidate, current } => NormStateV::TryAlternate {
                candidate: candidate@,
                current: current@,
            },
        }
    }
}

/// The outcome of one normalization step.
pub enum NormStep {
    /// Still going; the new state says what is awaited.
    More(NormState),
    /// Normalization ended at this manifest file.
    Resolved(String),
    /// No fallback was left; carries the originally requested path.
    NotFound(String),
}

pub enum NormStepV {
    More(NormStateV),
    Resolved(Seq<char>),
    NotFound(Seq<char>),
}

impl View for NormStep {
    type V = NormStepV;

    open spec fn view(&self) -> NormStepV {
        match self {
            NormStep::More(ns) => NormStepV::More(ns@),
            NormStep::Resolved(s) => NormStepV::Resolved(s@),
            NormStep::NotFound(s) => NormStepV::NotFound(s@),
        }
    }
}

/// One step of normalization: what the next state is for each state
/// and answer. A canonical path that is a directory gets the default
/// manifest filename appended; a miss there, or a canonical path that
/// is no regular file, gets the extension swapped to `.yaml`; a miss
/// after that is failure. An answer of the wrong shape changes
/// nothing.
pub open spec fn norm_next(ns: NormStateV, ev: EventV) -> NormStepV {
    match (ns, ev) {
        (NormStateV::Start { candidate }, EventV::Canonical(co)) => match co {
            Option::None => NormStepV::NotFound(candidate),
            Option::Some(c) => NormStepV::More(
                NormStateV::AtCanonical { candidate, canonical: c },
            ),
        },
        (NormStateV::AtCanonical { candidate, canonical }, EventV::Kind(k)) => {
            if k == PathKind::File {
                NormStepV::Resolved(canonical)
            } else if k == PathKind::Dir {
                NormStepV::More(
                    NormStateV::TryDefault {
                        candidate,
                        current: join_spec(canonical, "kustomization.yml"@),
                    },
                )
            } else {
                NormStepV::More(
                    NormStateV::TryAlternate { candidate, current: set_yaml_spec(canonical) },
                )
            }
        },
        (NormStateV::TryDefault { candidate, current }, EventV::Kind(k)) => {
            if k == PathKind::File {
                NormStepV::Resolved(current)
            } else {
                NormStepV::More(
                    NormStateV::TryAlternate { candidate, current: set_yaml_spec(current) },
                )
            }
        },
        (NormStateV::TryAlternate { candidate, current }, EventV::Kind(k)) => {
            if k == PathKind::File {
                NormStepV::Resolved(current)
            } else {
                NormStepV::NotFound(candidate)
            }
        },
        (s, _) => NormStepV::More(s),
    }
}

/// One step of normalization, exactly as `norm_next` says.
pub fn normalize(ns: NormState, ev: &Event) -> (r: NormStep)
    ensures
        r@ == norm_next(ns@, ev@),
{
    match ns {
        NormState::Start { candidate } => match ev {
            Event::Canonical(co) => match co {
                Option::None => NormStep::NotFound(candidate),
                Option::Some(c) => NormStep::More(
                    NormState::AtCanonical { candidate, canonical: c.clone() },
                ),
            },
            _ => NormStep::More(NormState::Start { candidate }),
        },
        NormState::AtCanonical { candidate, canonical } => match ev {
            Event::Kind(k) => {
                if *k == PathKind::File {
                    NormStep::Resolved(canonical)
                } else if *k == PathKind::Dir {
                    let current = join(canonical.as_str(), "kustomization.yml");
                    NormStep::More(NormState::TryDefault { candidate, current })
                } else {
                    let current = set_yaml_ext(canonical.as_str());
                    NormStep::More(NormState::TryAlternate { candidate, current })
                }
            },
            _ => NormStep::More(NormState::AtCanonical { candidate, canonical }),
        },
        NormState::TryDefault { candidate, current } => match ev {
            Event::Kind(k) => {
                if *k == PathKind::File {
                    NormStep::Resolved(current)
                } else {
                    let current = set_yaml_ext(current.as_str());
                    NormStep::More(NormState::TryAlternate { candidate, current })
                }
            },
            _ => NormStep::More(NormState::TryDefault { candidate, current }),
        },
        NormState::TryAlternate { candidate, current } => match ev {
            Event::Kind(k) => {
                if *k == PathKind::File {
                    NormStep::Resolved(current)
                } else {
                    NormStep::NotFound(candidate)
                }
            },
            _ => NormStep::More(NormState::TryAlternate { candidate, current }),
        },
    }
}

/// Where a run stands.
pub enum Phase {
    /// Normalizing the current candidate.
    Normalizing(NormState),
    /// Waiting for the parsed documents of this manifest file.
    AwaitDocs { canonical: String },
    /// All candidates processed; the raw result is complete.
    Finished,
    /// The run aborted; nothing more will be asked.
    Failed(ResolveError),
}

pub enum PhaseV {
    Normalizing(NormStateV),
    AwaitDocs { canonical: Seq<char> },
    Finished,
    Failed(ResolveErrorV),
}

impl View for Phase {
    type V = PhaseV;

    open spec fn view(&self) -> PhaseV {
        match self {
            Phase::Normalizing(ns) => PhaseV::Normalizing(ns@),
            Phase::AwaitDocs { canonical } => PhaseV::AwaitDocs { canonical: canonical@ },
            Phase::Finished => PhaseV::Finished,
            Phase::Failed(e) => PhaseV::Failed(e@),
        }
    }
}

/// A resolution run: the depth-first worklist of candidates still to
/// visit (top of stack last), the canonical manifests already visited
/// (the revisit guard), the raw accumulated output, and the phase.
pub struct Resolver {
    pub pending: Vec<String>,
    pub visited: Vec<String>,
    pub acc: Vec<String>,
    pub phase: Phase,
}

pub struct ResolverV {
    pub pending: Seq<Seq<char>>,
    pub visited: Seq<Seq<char>>,
    pub acc: Seq<Seq<char>>,
    pub phase: PhaseV,
}

impl View for Resolver {
    type V = ResolverV;

    open spec fn view(&self) -> ResolverV {
        ResolverV {
            pending: self.pending.deep_view(),
            visited: self.visited.deep_view(),
            acc: self.acc.deep_view(),
            phase: self.phase@,
        }
    }
}

/// Take up the next pending candidate, or finish when none is left.
pub open spec fn advance_spec(r: ResolverV) -> ResolverV {
    if r.pending.len() == 0 {
        ResolverV { phase: PhaseV::Finished, ..r }
    } else {
        ResolverV {
            pending: r.pending.drop_last(),
            phase: PhaseV::Normalizing(NormStateV::Start { candidate: r.pending.last() }),
            ..r
        }
    }
}

/// The generator files of one document, each joined onto the
/// manifest's parent directory, in declaration order.
pub open spec fn gen_row(files: Seq<Seq<char>>, parent: Seq<char>) -> Seq<Seq<char>>
    decreases files.len(),
{
    if files.len() == 0 {
        Seq::<Seq<char>>::empty()
    } else {
        gen_row(files.drop_last(), parent).push(join_spec(parent, files.last()))
    }
}

/// All generator files across the documents of one manifest, in
/// document and declaration order.
pub open spec fn gen_paths(docs: Seq<ManifestV>, parent: Seq<char>) -> Seq<Seq<char>>
    decreases docs.len(),
{
    if docs.len() == 0 {
        Seq::<Seq<char>>::empty()
    } else {
        gen_paths(docs.drop_last(), parent) + gen_row(docs.last().generated_files, parent)
    }
}

/// The local references of one document: each remote entry is dropped,
/// each local entry is joined onto the parent directory, in order.
pub open spec fn local_row(rs: Seq<Seq<char>>, parent: Seq<char>) -> Seq<Seq<char>>
    decreases rs.len(),
{
    if rs.len() == 0 {
        Seq::<Seq<char>>::empty()
    } else {
        local_row(rs.drop_last(), parent) + (
        if is_remote(rs.last()) {
            Seq::<Seq<char>>::empty()
        } else {
            seq![join_spec(parent, rs.last())]
        })
    }
}

/// All local references across the documents of one manifest, in
/// document and declaration order.
pub open spec fn local_children(docs: Seq<ManifestV>, parent: Seq<char>) -> Seq<Seq<char>>
    decreases docs.len(),
{
    if docs.len() == 0 {
        Seq::<Seq<char>>::empty()
    } else {
        local_children(docs.drop_last(), parent) + local_row(docs.last().resources, parent)
    }
}

/// One step of a run. While normalizing, `norm_next` decides; a
/// resolved manifest already visited is not re-entered (it is already
/// in the output); a fresh one is recorded, marked visited and parsed.
/// Parsed documents contribute their generator files to the output
/// only, and their local references to the worklist only, pushed in
/// reverse so that traversal is depth-first in declaration order. Any
/// failure aborts the whole run. A finished or failed run ignores
/// every further event.
pub open spec fn engine_step(r: ResolverV, ev: EventV) -> ResolverV {
    match r.phase {
        PhaseV::Normalizing(ns) => match norm_next(ns, ev) {
            NormStepV::More(ns2) => ResolverV { phase: PhaseV::Normalizing(ns2), ..r },
            NormStepV::Resolved(p) => {
                if r.visited.contains(p) {
                    advance_spec(r)
                } else {
                    ResolverV {
                        acc: r.acc.push(p),
                        visited: r.visited.push(p),
                        phase: PhaseV::AwaitDocs { canonical: p },
                        ..r
                    }
                }
            },
            NormStepV::NotFound(c) => ResolverV {
                phase: PhaseV::Failed(ResolveErrorV::NotFound(c)),
                ..r
            },
        },
        PhaseV::AwaitDocs { canonical } => match ev {
            EventV::Docs(res) => match res {
                Result::Ok(docs) => {
                    let parent = parent_spec(canonical);
                    advance_spec(
                        ResolverV {
                            acc: r.acc + gen_paths(docs, parent),
                            pending: r.pending + local_children(docs, parent).reverse(),
                            ..r
                        },
                    )
                },
                Result::Err(k) => {
                    if k == FailKind::Io {
                        ResolverV { phase: PhaseV::Failed(ResolveErrorV::IoError(canonical)), ..r }
                    } else {
                        ResolverV {
                            phase: PhaseV::Failed(ResolveErrorV::ParseError(canonical)),
                            ..r
                        }
                    }
                },
            },
            _ => r,
        },
        PhaseV::Finished => r,
        PhaseV::Failed(_) => r,
    }
}

/// Whether `s` is among the strings of `v`.
fn contains_str(v: &Vec<String>, s: &String) -> (r: bool)
    ensures
        r == v.deep_view().contains(s@),
{
    let n = v.len();
    let mut i: usize = 0;
    while i < n
        invariant
            i <= n,
            n == v@.len(),
            forall|j: int| 0 <= j < i ==> v.deep_view()[j] != s@,
        decreases n - i,
    {
        if v[i].eq(s) {
            assert(v.deep_view()[i as int] == s@);
            return true;
        }
        i = i + 1;
    }
    assert(forall|j: int| 0 <= j < v.deep_view().len() ==> v.deep_view()[j] != s@);
    false
}

/// Pop the next candidate into a fresh normalization, or finish.
fn advance(pending: Vec<String>, visited: Vec<String>, acc: Vec<String>) -> (res: Resolver)
    ensures
        res@ == advance_spec(
            ResolverV {
                pending: pending.deep_view(),
                visited: visited.deep_view(),
                acc: acc.deep_view(),
                phase: PhaseV::Finished,
            },
        ),
{
    let mut pending2 = pending;
    let ghost dv = pending2.deep_view();
    match pending2.pop() {
        Option::None => Resolver { pending: pending2, visited, acc, phase: Phase::Finished },
        Option::Some(top) => {
            proof {
                assert(pending2.deep_view() =~= dv.drop_last());
                assert(top@ == dv.last());
            }
            Resolver {
                pending: pending2,
                visited,
                acc,
                phase: Phase::Normalizing(NormState::Start { candidate: top }),
            }
        },
    }
}

/// Append every document's generator files, joined onto `parent`, to
/// the accumulator.
fn append_generated(acc: &mut Vec<String>, docs: &Vec<Manifest>, parent: &String)
    ensures
        final(acc).deep_view() == old(acc).deep_view() + gen_paths(
            docs@.map_values(|m: Manifest| m@),
            parent@,
        ),
{
    let ghost docsv = docs@.map_values(|m: Manifest| m@);
    let n = docs.len();
    let mut i: usize = 0;
    proof {
        assert(gen_paths(docsv.take(0), parent@) =~= Seq::<Seq<char>>::empty());
        assert(acc.deep_view() =~= old(acc).deep_view() + gen_paths(docsv.take(0), parent@));
    }
    while i < n
        invariant
            i <= n,
            n == docs@.len(),
            docsv == docs@.map_values(|m: Manifest| m@),
            acc.deep_view() == old(acc).deep_view() + gen_paths(docsv.take(i as int), parent@),
        decreases n - i,
    {
        let files = &docs[i].generated_files;
        let ghost filesv = files.deep_view();
        let m = files.len();
        let mut j: usize = 0;
        proof {
            assert(gen_row(filesv.take(0), parent@) =~= Seq::<Seq<char>>::empty());
        }
        while j < m
            invariant
                j <= m,
                m == files@.len(),
                filesv == files.deep_view(),
                files == &docs[i as int].generated_files,
                i < n,
                n == docs@.len(),
                docsv == docs@.map_values(|m2: Manifest| m2@),
                acc.deep_view() == old(acc).deep_view() + gen_paths(docsv.take(i as int), parent@)
                    + gen_row(filesv.take(j as int), parent@),
            decreases m - j,
        {
            let ghost acc_pre = acc.deep_view();
            let p = join(parent.as_str(), files[j].as_str());
            acc.push(p);
            proof {
                assert(acc.deep_view() =~= acc_pre.push(join_spec(parent@, filesv[j as int])));
                assert(filesv.take(j as int + 1).drop_last() =~= filesv.take(j as int));
                assert(filesv.take(j as int + 1).last() == filesv[j as int]);
            }
            j = j + 1;
        }
        proof {
            assert(filesv.take(m as int) =~= filesv);
            assert(docsv.take(i as int + 1).drop_last() =~= docsv.take(i as int));
            assert(docsv.take(i as int + 1).last() == docsv[i as int]);
            assert(docsv[i as int].generated_files == filesv);
        }
        i = i + 1;
    }
    proof {
        assert(docsv.take(n as int) =~= docsv);
    }
}

/// The local references of all documents, joined onto `parent`, in
/// traversal order; remote references contribute nothing.
fn collect_children(docs: &Vec<Manifest>, parent: &String) -> (c: Vec<String>)
    ensures
        c.deep_view() == local_children(docs@.map_values(|m: Manifest| m@), parent@),
{
    let ghost docsv = docs@.map_values(|m: Manifest| m@);
    let mut c: Vec<String> = Vec::new();
    let n = docs.len();
    let mut i: usize = 0;
    proof {
        assert(local_children(docsv.take(0), parent@) =~= Seq::<Seq<char>>::empty());
        assert(c.deep_view() =~= local_children(docsv.take(0), parent@));
    }
    while i < n
        invariant
            i <= n,
            n == docs@.len(),
            docsv == docs@.map_values(|m: Manifest| m@),
            c.deep_view() == local_children(docsv.take(i as int), parent@),
        decreases n - i,
    {
        let rs = &docs[i].resources;
        let ghost rsv = rs.deep_view();
        let m = rs.len();
        let mut j: usize = 0;
        proof {
            assert(local_row(rsv.take(0), parent@) =~= Seq::<Seq<char>>::empty());
        }
        while j < m
            invariant
                j <= m,
                m == rs@.len(),
                rsv == rs.deep_view(),
                rs == &docs[i as int].resources,
                i < n,
                n == docs@.len(),
                docsv == docs@.map_values(|m2: Manifest| m2@),
                c.deep_view() == local_children(docsv.take(i as int), parent@) + local_row(
                    rsv.take(j as int),
                    parent@,
                ),
            decreases m - j,
        {
            let ghost c_pre = c.deep_view();
            if !unsupported(rs[j].as_str()) {
                let p = join(parent.as_str(), rs[j].as_str());
                c.push(p);
                proof {
                    assert(c.deep_view() =~= c_pre.push(join_spec(parent@, rsv[j as int])));
                }
            }
            proof {
                assert(rsv.take(j as int + 1).drop_last() =~= rsv.take(j as int));
                assert(rsv.take(j as int + 1).last() == rsv[j as int]);
                if !is_remote(rsv[j as int]) {
                    assert(c.deep_view() =~= c_pre + seq![join_spec(parent@, rsv[j as int])]);
                }
            }
            j = j + 1;
        }
        proof {
            assert(rsv.take(m as int) =~= rsv);
            assert(docsv.take(i as int + 1).drop_last() =~= docsv.take(i as int));
            assert(docsv.take(i as int + 1).last() == docsv[i as int]);
            assert(docsv[i as int].resources == rsv);
        }
        i = i + 1;
    }
    proof {
        assert(docsv.take(n as int) =~= docsv);
    }
    c
}

/// Push `children` onto the worklist back to front, so that the first
/// child is the next candidate popped.
fn push_reversed(pending: &mut Vec<String>, children: Vec<String>)
    ensures
        final(pending).deep_view() == old(pending).deep_view()
            + children.deep_view().reverse(),
{
    let mut rest = children;
    let ghost cv = children.deep_view();
    proof {
        assert(rest.deep_view() =~= cv.take(cv.len() as int));
        assert(cv.skip(cv.len() as int).reverse() =~= Seq::<Seq<char>>::empty());
        assert(pending.deep_view() =~= old(pending).deep_view() + cv.skip(
            cv.len() as int,
        ).reverse());
    }
    while rest.len() != 0
        invariant
            rest.deep_view() == cv.take(rest@.len() as int),
            rest@.len() <= cv.len(),
            pending.deep_view() == old(pending).deep_view() + cv.skip(
                rest@.len() as int,
            ).reverse(),
        decreases rest@.len(),
    {
        let ghost k = rest@.len() as int;
        let ghost dv_pre = rest.deep_view();
        let ghost sv_pre = rest@;
        match rest.pop() {
            Option::None => {
                proof {
                    assert(false);
                }
            },
            Option::Some(x) => {
                proof {
                    assert(x == sv_pre.last());
                    assert(dv_pre[k - 1] == sv_pre[k - 1].deep_view());
                    assert(x@ == cv[k - 1]);
                    assert(forall|i: int|
                        0 <= i < k - 1 ==> rest.deep_view()[i] == #[trigger] sv_pre[i].deep_view());
                    assert(rest.deep_view() =~= cv.take(k - 1));
                }
                let ghost p_pre = pending.deep_view();
                pending.push(x);
                proof {
                    assert(pending.deep_view() =~= p_pre.push(cv[k - 1]));
                    assert(cv.skip(k - 1).reverse() =~= cv.skip(k).reverse().push(cv[k - 1]));
                }
            },
        }
    }
    proof {
        assert(cv.skip(0).reverse() =~= cv.reverse());
    }
}

/// Begin a run over the given root candidates, processed in order.
pub open spec fn init_spec(roots: Seq<Seq<char>>) -> ResolverV {
    advance_spec(
        ResolverV {
            pending: roots.reverse(),
            visited: Seq::<Seq<char>>::empty(),
            acc: Seq::<Seq<char>>::empty(),
            phase: PhaseV::Finished,
        },
    )
}

impl Resolver {
    /// A fresh run over the given root candidates, in order.
    pub fn new(roots: Vec<String>) -> (r: Resolver)
        ensures
            r@ == init_spec(roots.deep_view()),
    {
        let mut pending: Vec<String> = Vec::new();
        proof {
            assert(pending.deep_view() =~= Seq::<Seq<char>>::empty());
        }
        push_reversed(&mut pending, roots);
        proof {
            assert(pending.deep_view() =~= roots.deep_view().reverse());
        }
        let visited: Vec<String> = Vec::new();
        let acc: Vec<String> = Vec::new();
        proof {
            assert(visited.deep_view() =~= Seq::<Seq<char>>::empty());
            assert(acc.deep_view() =~= Seq::<Seq<char>>::empty());
        }
        advance(pending, visited, acc)
    }

    /// What the engine wants to know next; nothing once the run has
    /// finished or failed.
    pub fn query(&self) -> (q: Option<Query>)
        ensures
            query_view(q) == query_spec(self@.phase),
    {
        match &self.phase {
            Phase::Normalizing(ns) => match ns {
                NormState::Start { candidate } => Some(Query::Canonicalize(candidate.clone())),
                NormState::AtCanonical { canonical, .. } => Some(Query::Probe(canonical.clone())),
                NormState::TryDefault { current, .. } => Some(Query::Probe(current.clone())),
                NormState::TryAlternate { current, .. } => Some(Query::Probe(current.clone())),
            },
            Phase::AwaitDocs { canonical } => Some(Query::Parse(canonical.clone())),
            Phase::Finished => None,
            Phase::Failed(_) => None,
        }
    }

    /// The run's result: the raw path list on success, the failure
    /// otherwise, nothing while the run is still going.
    pub fn outcome(self) -> (r: Option<Result<Vec<String>, ResolveError>>)
        ensures
            outcome_view(r) == outcome_spec(self@),
    {
        match self.phase {
            Phase::Finished => Some(Ok(self.acc)),
            Phase::Failed(e) => Some(Err(e)),
            Phase::Normalizing(_) => None,
            Phase::AwaitDocs { .. } => None,
        }
    }
}

pub open spec fn query_view(q: Option<Query>) -> Option<QueryV> {
    match q {
        Option::Some(x) => Option::Some(x@),
        Option::None => Option::None,
    }
}

/// The question each phase is waiting on.
pub open spec fn query_spec(p: PhaseV) -> Option<QueryV> {
    match p {
        PhaseV::Normalizing(ns) => match ns {
            NormStateV::Start { candidate } => Option::Some(QueryV::Canonicalize(candidate)),
            NormStateV::AtCanonical { canonical, .. } => Option::Some(QueryV::Probe(canonical)),
            NormStateV::TryDefault { current, .. } => Option::Some(QueryV::Probe(current)),
            NormStateV::TryAlternate { current, .. } => Option::Some(QueryV::Probe(current)),
        },
        PhaseV::AwaitDocs { canonical } => Option::Some(QueryV::Parse(canonical)),
        PhaseV::Finished => Option::None,
        PhaseV::Failed(_) => Option::None,
    }
}

pub open spec fn outcome_view(r: Option<Result<Vec<String>, ResolveError>>) -> Option<
    Result<Seq<Seq<char>>, ResolveErrorV>,
> {
    match r {
        Option::Some(Result::Ok(v)) => Option::Some(Result::Ok(v.deep_view())),
        Option::Some(Result::Err(e)) => Option::Some(Result::Err(e@)),
        Option::None => Option::None,
    }
}

/// What a run yields in each phase.
pub open spec fn outcome_spec(r: ResolverV) -> Option<
    Result<Seq<Seq<char>>, ResolveErrorV>,
> {
    match r.phase {
        PhaseV::Finished => Option::Some(Result::Ok(r.acc)),
        PhaseV::Failed(e) => Option::Some(Result::Err(e)),
        _ => Option::None,
    }
}

/// One step of a run, exactly as `engine_step` says.
pub fn run(r: Resolver, ev: &Event) -> (res: Resolver)
    ensures
        res@ == engine_step(r@, ev@),
{
    let Resolver { pending, visited, acc, phase } = r;
    match phase {
        Phase::Normalizing(ns) => match normalize(ns, ev) {
            NormStep::More(ns2) => Resolver { pending, visited, acc, phase: Phase::Normalizing(ns2) },
            NormStep::Resolved(p) => {
                if contains_str(&visited, &p) {
                    advance(pending, visited, acc)
                } else {
                    let mut acc2 = acc;
                    let mut visited2 = visited;
                    let ghost acc_pre = acc2.deep_view();
                    let ghost vis_pre = visited2.deep_view();
                    acc2.push(p.clone());
                    visited2.push(p.clone());
                    proof {
                        assert(acc2.deep_view() =~= acc_pre.push(p@));
                        assert(visited2.deep_view() =~= vis_pre.push(p@));
                    }
                    Resolver {
                        pending,
                        visited: visited2,
                        acc: acc2,
                        phase: Phase::AwaitDocs { canonical: p },
                    }
                }
            },
            NormStep::NotFound(c) => Resolver {
                pending,
                visited,
                acc,
                phase: Phase::Failed(ResolveError::NotFound(c)),
            },
        },
        Phase::AwaitDocs { canonical } => match ev {
            Event::Docs(docs_res) => match docs_res {
                Result::Ok(docs) => {
                    let parent = parent_dir(canonical.as_str());
                    let mut acc2 = acc;
                    let mut pending2 = pending;
                    append_generated(&mut acc2, docs, &parent);
                    let children = collect_children(docs, &parent);
                    push_reversed(&mut pending2, children);
                    advance(pending2, visited, acc2)
                },
                Result::Err(k) => {
                    let e = if *k == FailKind::Io {
                        ResolveError::IoError(canonical)
                    } else {
                        ResolveError::ParseError(canonical)
                    };
                    Resolver { pending, visited, acc, phase: Phase::Failed(e) }
                },
            },
            _ => Resolver { pending, visited, acc, phase: Phase::AwaitDocs { canonical } },
        },
        Phase::Finished => Resolver { pending, visited, acc, phase: Phase::Finished },
        Phase::Failed(e) => Resolver { pending, visited, acc, phase: Phase::Failed(e) },
    }
}

/// A remote reference contributes nothing at all: dropping it from a
/// document's `resources` leaves the traversal's children unchanged.
pub proof fn lemma_remote_contributes_nothing(
    rs: Seq<Seq<char>>,
    parent: Seq<char>,
    e: Seq<char>,
)
    requires
        is_remote(e),
    ensures
        local_row(rs.push(e), parent) == local_row(rs, parent),
{
    assert(rs.push(e).drop_last() =~= rs);
    assert(rs.push(e).last() == e);
    assert(local_row(rs.push(e), parent) =~= local_row(rs, parent));
}

/// Generator files are leaves: what the walk descends into is decided
/// by the `resources` fields alone, never by `generatedFiles`.
pub proof fn lemma_generated_files_not_followed(
    docs1: Seq<ManifestV>,
    docs2: Seq<ManifestV>,
    parent: Seq<char>,
)
    requires
        docs1.len() == docs2.len(),
        forall|i: int| 0 <= i < docs1.len() ==> docs1[i].resources == docs2[i].resources,
    ensures
        local_children(docs1, parent) == local_children(docs2, parent),
    decreases docs1.len(),
{
    if docs1.len() == 0 {
    } else {
        lemma_generated_files_not_followed(docs1.drop_last(), docs2.drop_last(), parent);
        assert(docs1.last().resources == docs2.last().resources);
    }
}

/// What goes to the output from parsed documents is decided by the
/// `generatedFiles` fields alone, never by `resources`.
pub proof fn lemma_resources_do_not_generate(
    docs1: Seq<ManifestV>,
    docs2: Seq<ManifestV>,
    parent: Seq<char>,
)
    requires
        docs1.len() == docs2.len(),
        forall|i: int|
            0 <= i < docs1.len() ==> docs1[i].generated_files == docs2[i].generated_files,
    ensures
        gen_paths(docs1, parent) == gen_paths(docs2, parent),
    decreases docs1.len(),
{
    if docs1.len() == 0 {
    } else {
        lemma_resources_do_not_generate(docs1.drop_last(), docs2.drop_last(), parent);
        assert(docs1.last().generated_files == docs2.last().generated_files);
    }
}

proof fn lemma_remote_in_children(
    docs: Seq<ManifestV>,
    parent: Seq<char>,
    d: int,
    m2: ManifestV,
    e: Seq<char>,
)
    requires
        0 <= d < docs.len(),
        is_remote(e),
        m2.resources == docs[d].resources.push(e),
    ensures
        local_children(docs.update(d, m2), parent) == local_children(docs, parent),
    decreases docs.len(),
{
    let docs2 = docs.update(d, m2);
    if d == docs.len() - 1 {
        assert(docs2.drop_last() =~= docs.drop_last());
        assert(docs2.last() == m2);
        lemma_remote_contributes_nothing(docs[d].resources, parent, e);
    } else {
        assert(docs2.last() == docs.last());
        assert(docs2.drop_last() =~= docs.drop_last().update(d, m2));
        lemma_remote_in_children(docs.drop_last(), parent, d, m2, e);
    }
}

/// A remote reference contributes nothing to a run: a manifest
/// document with one more remote `resources` entry drives the engine
/// to exactly the same next state.
pub proof fn lemma_remote_entry_ignored(
    r: ResolverV,
    canonical: Seq<char>,
    docs: Seq<ManifestV>,
    d: int,
    m2: ManifestV,
    e: Seq<char>,
)
    requires
        r.phase == (PhaseV::AwaitDocs { canonical }),
        0 <= d < docs.len(),
        is_remote(e),
        m2.resources == docs[d].resources.push(e),
        m2.generated_files == docs[d].generated_files,
    ensures
        engine_step(r, EventV::Docs(Result::Ok(docs.update(d, m2)))) == engine_step(
            r,
            EventV::Docs(Result::Ok(docs)),
        ),
{
    let docs2 = docs.update(d, m2);
    let parent = parent_spec(canonical);
    lemma_remote_in_children(docs, parent, d, m2, e);
    lemma_resources_do_not_generate(docs2, docs, parent);
}

} // verus!
