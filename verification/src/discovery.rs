//! Discovering the `[link].includes` file graph of a manifest, one step at
//! a time: the caller does the file-system work each step asks for
//! (canonicalising a path, reading a file, testing that one exists) and
//! hands back what it found; the decisions (what to read next, which
//! include is recursive, which is malformed, which edge to add) are made
//! here.

use crate::graph::{add_file, graph_edges, graph_nodes, graph_wf, link_files, new_file_graph, ManifestFile};
use crate::load::{
    dir_of, dir_of_exec, includes_of, issues_in, link_issues, syntax_problem, ends_with, error_view, errors_view, extract_includes, include_target, include_view,
    missing_include_message, syntax_error, ManifestError,
};
use crate::paths::join_path;
use crate::toml::toml_root;
use crate::text::{push_str, string_of};
use std::ops::Range;
use vstd::prelude::*;

verus! {

/// A file being discovered: its (canonical) path, its node, its includes
/// (value and span) and how many of them were handled.
#[derive(Debug)]
pub struct Frame {
    pub path: String,
    pub node: usize,
    pub includes: Vec<(String, usize, usize)>,
    pub next: usize,
}

/// What the caller is asked to do next.
#[derive(Debug)]
pub enum DiscoveryAction {
    /// Canonicalise `path` (or keep it as is when that fails).
    Canonicalize { path: String },
    /// Read the file at `path` (the root's unsaved text may stand in), its
    /// line endings normalised, with the workspace root it belongs to.
    Read { path: String },
    /// Tell whether a file exists at `path`.
    Exists { path: String },
    /// Discovery is over; `root` is the node of the manifest asked for.
    Done { root: usize },
}

/// What the caller found.
#[derive(Debug)]
pub enum DiscoveryEvent {
    Canonical(String),
    Content { content: String, workspace_root: String },
    ReadFailed(String),
    Exists(bool),
}

/// What discovery waits for.
#[derive(Debug)]
pub enum Waiting {
    Canonical { path: String },
    Content { path: String },
    Exists { path: String, value: String, start: usize, end: usize },
    Finished { root: usize },
}

/// The state of a discovery: the graph so far, the chain of files being
/// discovered (each one included by the one before), the problems found,
/// and what is awaited.
#[derive(Debug)]
pub struct Discovery {
    pub graph: petgraph::graph::Graph<ManifestFile, u32>,
    pub stack: Vec<Frame>,
    pub errors: Vec<ManifestError>,
    pub waiting: Waiting,
}

/// The paths of the chain of files being discovered.
pub open spec fn chain(stack: Seq<Frame>) -> Seq<Seq<char>> {
    stack.map_values(|f: Frame| f.path@)
}

/// Whether `a` is the action that asks for what `w` awaits.
pub open spec fn asks(w: Waiting, a: DiscoveryAction) -> bool {
    match w {
        Waiting::Canonical { path } => a matches DiscoveryAction::Canonicalize { path: p } && p@ == path@,
        Waiting::Content { path } => a matches DiscoveryAction::Read { path: p } && p@ == path@,
        Waiting::Exists { path, .. } => a matches DiscoveryAction::Exists { path: p } && p@ == path@,
        Waiting::Finished { root } => a matches DiscoveryAction::Done { root: x } && x == root,
    }
}

/// Whether `e` answers what `w` awaits.
pub open spec fn answers(w: Waiting, e: DiscoveryEvent) -> bool {
    match (w, e) {
        (Waiting::Canonical { .. }, DiscoveryEvent::Canonical(_)) => true,
        (Waiting::Content { .. }, DiscoveryEvent::Content { .. }) => true,
        (Waiting::Content { .. }, DiscoveryEvent::ReadFailed(_)) => true,
        (Waiting::Exists { .. }, DiscoveryEvent::Exists(_)) => true,
        _ => false,
    }
}

/// The message for a file that could not be read.
pub open spec fn read_failed_message(reason: Seq<char>) -> Seq<char> {
    "failed to read file: "@ + reason
}

/// The message for an include of a file that is already being discovered.
pub open spec fn recursion_message() -> Seq<char> {
    "recursive icon manifest include"@
}

/// A frame as plain values: path, node, includes (value and span) and how
/// many were handled.
pub ghost struct FrameView {
    pub path: Seq<char>,
    pub node: int,
    pub includes: Seq<(Seq<char>, int, int)>,
    pub next: int,
}

pub open spec fn frame_view(f: Frame) -> FrameView {
    FrameView { path: f.path@, node: f.node as int, includes: include_view(f.includes@), next: f.next as int }
}

pub open spec fn frames_view(stack: Seq<Frame>) -> Seq<FrameView> {
    stack.map_values(|f: Frame| frame_view(f))
}

/// What is awaited, as plain values.
pub ghost enum WaitView {
    Canonical(Seq<char>),
    Content(Seq<char>),
    Exists(Seq<char>, Seq<char>, int, int),
    Finished(int),
}

pub open spec fn wait_view(w: Waiting) -> WaitView {
    match w {
        Waiting::Canonical { path } => WaitView::Canonical(path@),
        Waiting::Content { path } => WaitView::Content(path@),
        Waiting::Exists { path, value, start, end } => WaitView::Exists(path@, value@, start as int, end as int),
        Waiting::Finished { root } => WaitView::Finished(root as int),
    }
}

/// The chain, the edges, the problems and what is awaited once the
/// includes have been handled as far as they can be without the caller.
pub ghost struct Settled {
    pub stack: Seq<FrameView>,
    pub edges: Seq<(int, int, u32)>,
    pub errors: Seq<(Seq<char>, Option<(int, int)>, Seq<char>)>,
    pub wait: WaitView,
}

/// Where the include `value` of a file in `base` leads, or the message for
/// one that names no `.gui.toml` file.
pub open spec fn include_outcome(base: Seq<char>, value: Seq<char>) -> Result<Seq<char>, Seq<char>> {
    if ends_with(value, ".gui.toml"@) {
        Ok(join_path(base, value))
    } else {
        Err("`[link]` includes a file that isn't a `.gui.toml` manifest: `"@ + value + "`"@)
    }
}

/// The edge weight recorded for the include before `next`.
pub open spec fn ordinal_of(next: int) -> u32 {
    let o = if next > 0 {
        next - 1
    } else {
        0
    };
    if o <= 0xffff_ffff {
        o as u32
    } else {
        0xffff_ffff
    }
}

/// `edges` with `parent -> child` of weight `w` added, as `link_files` adds
/// it among `nodes` files.
pub open spec fn linked(edges: Seq<(int, int, u32)>, parent: int, child: int, w: u32, nodes: int) -> Seq<(int, int, u32)> {
    if parent < child < nodes && edges.len() < 0xffff_ffff {
        edges.push((parent, child, w))
    } else {
        edges
    }
}

/// Handling the next includes of the last file of the chain: a malformed
/// one is reported and skipped, a well-formed one is awaited as `Exists`;
/// with none left the file is done and handed to `after_finish`.
pub open spec fn after_advance(
    stack: Seq<FrameView>,
    edges: Seq<(int, int, u32)>,
    errors: Seq<(Seq<char>, Option<(int, int)>, Seq<char>)>,
    nodes: int,
) -> Settled
    decreases stack.len(), 0int, stack.last().includes.len() - stack.last().next,
{
    if stack.len() == 0 {
        Settled { stack, edges, errors, wait: WaitView::Finished(0) }
    } else {
        let f = stack.last();
        if f.next >= f.includes.len() {
            after_finish(stack.drop_last(), edges, errors, Some(f.node), nodes)
        } else {
            let (value, start, end) = f.includes[f.next];
            let moved = stack.update(stack.len() - 1, FrameView { next: f.next + 1, ..f });
            match include_outcome(dir_of(f.path), value) {
                Err(m) => after_advance(moved, edges, errors.push((f.path, Some((start, end)), m)), nodes),
                Ok(target) => Settled { stack: moved, edges, errors, wait: WaitView::Exists(target, value, start, end) },
            }
        }
    }
}

/// A file (`node`, or none) is done: it becomes the root when the chain is
/// empty, else an include of the last file of the chain, whose next
/// includes are then handled.
pub open spec fn after_finish(
    stack: Seq<FrameView>,
    edges: Seq<(int, int, u32)>,
    errors: Seq<(Seq<char>, Option<(int, int)>, Seq<char>)>,
    node: Option<int>,
    nodes: int,
) -> Settled
    decreases stack.len(), 1int, 0int,
{
    if stack.len() == 0 {
        Settled {
            stack,
            edges,
            errors,
            wait: WaitView::Finished(
                match node {
                    Some(n) => n,
                    None => 0,
                },
            ),
        }
    } else {
        let f = stack.last();
        let e = match node {
            Some(c) => linked(edges, f.node, c, ordinal_of(f.next), nodes),
            None => edges,
        };
        after_advance(stack, e, errors, nodes)
    }
}

/// The paths of a chain given as plain values.
pub open spec fn view_chain(stack: Seq<FrameView>) -> Seq<Seq<char>> {
    stack.map_values(|f: FrameView| f.path)
}

/// A file at `path` was read with text `content` while `n` files are
/// known: it becomes node `n` (while petgraph's indices last); a text that
/// is no TOML document is reported and the file is done at once; otherwise
/// the issues of its `[link]` are reported and, unless it is already being
/// discovered, it joins the chain and its includes are handled.
pub open spec fn after_read(
    stack: Seq<FrameView>,
    edges: Seq<(int, int, u32)>,
    errors: Seq<(Seq<char>, Option<(int, int)>, Seq<char>)>,
    path: Seq<char>,
    content: Seq<char>,
    n: int,
) -> Settled {
    let room = n < 0xffff_ffff;
    let added = if room {
        Some(n)
    } else {
        None
    };
    let nodes = if room {
        n + 1
    } else {
        n
    };
    match toml_root(content) {
        Err(e) => after_finish(stack, edges, errors.push(syntax_problem(path, e)), added, nodes),
        Ok(root) => {
            let errs = errors + issues_in(path, link_issues(root));
            if !room {
                after_finish(stack, edges, errs, None, n)
            } else if view_chain(stack).contains(path) {
                after_finish(stack, edges, errs, Some(n), n + 1)
            } else {
                after_advance(
                    stack.push(FrameView { path, node: n, includes: includes_of(root), next: 0 }),
                    edges,
                    errs,
                    n + 1,
                )
            }
        },
    }
}

/// A file at `path` could not be read (`reason`) while `n` files are known:
/// it is reported, becomes an empty node `n` (while petgraph's indices
/// last), and is done at once.
pub open spec fn after_read_failed(
    stack: Seq<FrameView>,
    edges: Seq<(int, int, u32)>,
    errors: Seq<(Seq<char>, Option<(int, int)>, Seq<char>)>,
    path: Seq<char>,
    reason: Seq<char>,
    n: int,
) -> Settled {
    let room = n < 0xffff_ffff;
    after_finish(
        stack,
        edges,
        errors.push((path, None, read_failed_message(reason))),
        if room {
            Some(n)
        } else {
            None
        },
        if room {
            n + 1
        } else {
            n
        },
    )
}

/// The text a read file is kept with: its own, or none when it is no TOML
/// document.
pub open spec fn stored_text(content: Seq<char>) -> Seq<char> {
    if toml_root(content) is Ok {
        content
    } else {
        Seq::empty()
    }
}

/// Whether `d` is the state `s` describes.
pub open spec fn settled_as(d: Discovery, s: Settled) -> bool {
    &&& frames_view(d.stack@) == s.stack
    &&& graph_edges(d.graph) == s.edges
    &&& errors_view(d.errors@) == s.errors
    &&& wait_view(d.waiting) == s.wait
}

impl Discovery {
    /// The graph only ever grows forward; the chain's files are nodes of
    /// it, in order, each with its own path, no path twice, and no include
    /// handled beyond the list.
    pub open spec fn wf(&self) -> bool {
        &&& graph_wf(self.graph)
        &&& forall|i: int| 0 <= i < self.stack@.len() ==> {
            let f = #[trigger] self.stack@[i];
            &&& f.node < graph_nodes(self.graph).len()
            &&& graph_nodes(self.graph)[f.node as int].0 == f.path@
            &&& f.next <= f.includes@.len()
        }
        &&& forall|i: int, j: int|
            0 <= i < j < self.stack@.len() ==> (#[trigger] self.stack@[i]).node < (#[trigger] self.stack@[j]).node
        &&& forall|i: int, j: int|
            0 <= i < j < self.stack@.len() ==> (#[trigger] self.stack@[i]).path@ != (#[trigger] self.stack@[j]).path@
        &&& match self.waiting {
            Waiting::Finished { root } => root < graph_nodes(self.graph).len() && self.stack@.len() == 0,
            Waiting::Exists { .. } => self.stack@.len() > 0,
            _ => true,
        }
    }

    /// Starts discovering the manifest at `manifest_path`: its path is to
    /// be canonicalised first.
    pub fn new(manifest_path: &str) -> (r: (Self, DiscoveryAction))
        ensures
            r.0.wf(),
            graph_nodes(r.0.graph).len() == 0,
            r.0.errors@.len() == 0,
            r.1 matches DiscoveryAction::Canonicalize { path } && path@ == manifest_path@,
    {
        let d = Discovery {
            graph: new_file_graph(),
            stack: Vec::new(),
            errors: Vec::new(),
            waiting: Waiting::Canonical { path: manifest_path.to_owned() },
        };
        (d, DiscoveryAction::Canonicalize { path: manifest_path.to_owned() })
    }

    /// The action for what is awaited.
    pub fn action(&self) -> (r: DiscoveryAction)
        ensures
            asks(self.waiting, r),
    {
        match &self.waiting {
            Waiting::Canonical { path } => DiscoveryAction::Canonicalize { path: path.clone() },
            Waiting::Content { path } => DiscoveryAction::Read { path: path.clone() },
            Waiting::Exists { path, .. } => DiscoveryAction::Exists { path: path.clone() },
            Waiting::Finished { root } => DiscoveryAction::Done { root: *root },
        }
    }

    fn on_stack(&self, path: &String) -> (r: bool)
        ensures
            r == chain(self.stack@).contains(path@),
    {
        let mut i: usize = 0;
        while i < self.stack.len()
            invariant
                i <= self.stack@.len(),
                forall|j: int| 0 <= j < i ==> self.stack@[j].path@ != path@,
            decreases self.stack@.len() - i,
        {
            if self.stack[i].path == *path {
                proof {
                    assert(chain(self.stack@)[i as int] == path@);
                }
                return true;
            }
            i += 1;
        }
        proof {
            if chain(self.stack@).contains(path@) {
                let j = choose|j: int| 0 <= j < chain(self.stack@).len() && chain(self.stack@)[j] == path@;
                assert(self.stack@[j].path@ == path@);
            }
        }
        false
    }

    /// A file has been fully discovered (`node`, or none when it was left
    /// out): it becomes an include of the file before it in the chain, or
    /// the root when the chain is empty; then the next include is handled.
    fn finish_file(&mut self, node: Option<usize>)
        requires
            old(self).wf(),
            node matches Some(n) ==> n < graph_nodes(old(self).graph).len() && forall|i: int|
                0 <= i < old(self).stack@.len() ==> (#[trigger] old(self).stack@[i]).node < n,
            old(self).stack@.len() == 0 ==> node is Some,
        ensures
            final(self).wf(),
            graph_nodes(final(self).graph) == graph_nodes(old(self).graph),
            final(self).errors@.len() >= old(self).errors@.len(),
            final(self).errors@.take(old(self).errors@.len() as int) == old(self).errors@,
            settled_as(
                *final(self),
                after_finish(
                    frames_view(old(self).stack@),
                    graph_edges(old(self).graph),
                    errors_view(old(self).errors@),
                    match node {
                        Some(n) => Some(n as int),
                        None => None,
                    },
                    graph_nodes(old(self).graph).len() as int,
                ),
            ),
        decreases old(self).stack@.len(), 1int,
    {
        let ghost stack0 = frames_view(self.stack@);
        let depth = self.stack.len();
        if depth == 0 {
            let root = match node {
                Some(n) => n,
                None => 0,
            };
            self.waiting = Waiting::Finished { root };
            return;
        }
        proof {
            assert(stack0.last() == frame_view(self.stack@[depth - 1]));
        }
        if let Some(child) = node {
            let parent = self.stack[depth - 1].node;
            // The include being handled is the one before `next`.
            let next = self.stack[depth - 1].next;
            let ordinal = if next > 0 {
                next - 1
            } else {
                0
            };
            let ord: u32 = if ordinal <= 0xffff_ffff {
                ordinal as u32
            } else {
                0xffff_ffff
            };
            proof {
                assert(ord == ordinal_of(next as int));
            }
            link_files(&mut self.graph, parent, child, ord);
        }
        self.advance();
    }

    /// Handles the next include of the file last in the chain: a malformed
    /// one is reported and skipped; for a well-formed one, whether its file
    /// exists is asked. With none left, the file is done.
    fn advance(&mut self)
        requires
            old(self).wf(),
            old(self).stack@.len() > 0,
        ensures
            final(self).wf(),
            graph_nodes(final(self).graph) == graph_nodes(old(self).graph),
            final(self).errors@.len() >= old(self).errors@.len(),
            final(self).errors@.take(old(self).errors@.len() as int) == old(self).errors@,
            settled_as(
                *final(self),
                after_advance(
                    frames_view(old(self).stack@),
                    graph_edges(old(self).graph),
                    errors_view(old(self).errors@),
                    graph_nodes(old(self).graph).len() as int,
                ),
            ),
        decreases old(self).stack@.len(), 0int,
    {
        loop
            invariant
                self.wf(),
                self.stack@.len() == old(self).stack@.len() > 0,
                graph_nodes(self.graph) == graph_nodes(old(self).graph),
                self.errors@.len() >= old(self).errors@.len(),
                self.errors@.take(old(self).errors@.len() as int) == old(self).errors@,
                !(self.waiting is Finished),
                after_advance(
                    frames_view(self.stack@),
                    graph_edges(self.graph),
                    errors_view(self.errors@),
                    graph_nodes(old(self).graph).len() as int,
                ) == after_advance(
                    frames_view(old(self).stack@),
                    graph_edges(old(self).graph),
                    errors_view(old(self).errors@),
                    graph_nodes(old(self).graph).len() as int,
                ),
            decreases self.stack@[self.stack@.len() - 1].includes@.len() - self.stack@[self.stack@.len() - 1].next,
        {
            let ghost cur = frames_view(self.stack@);
            let ghost nodes = graph_nodes(old(self).graph).len() as int;
            let top = self.stack.len() - 1;
            let n = self.stack[top].includes.len();
            let k = self.stack[top].next;
            proof {
                assert(cur.last() == frame_view(self.stack@[top as int]));
            }
            if k >= n {
                let ghost whole = self.stack@;
                let done = self.stack.pop().unwrap();
                proof {
                    assert(frames_view(self.stack@) =~= cur.drop_last());
                }
                proof {
                    assert forall|i: int| 0 <= i < self.stack@.len() implies (#[trigger] self.stack@[i]).node < done.node by {
                        assert(self.stack@[i] == whole[i]);
                        assert(whole[i].node < whole[whole.len() - 1].node);
                    }
                }
                self.waiting = Waiting::Canonical { path: done.path };
                self.finish_file(Some(done.node));
                return;
            }
            let (value, start, end) = {
                let inc = &self.stack[top].includes[k];
                (inc.0.clone(), inc.1, inc.2)
            };
            proof {
                assert(include_view(self.stack@[top as int].includes@)[k as int] == (value@, start as int, end as int));
            }
            let base = dir_of_exec(self.stack[top].path.as_str());
            let ghost before = self.stack@;
            let mut frame = self.stack.pop().unwrap();
            frame.next = k + 1;
            let file = frame.path.clone();
            self.stack.push(frame);
            proof {
                assert forall|i: int| 0 <= i < self.stack@.len() - 1 implies #[trigger] self.stack@[i] == before[i] by {}
                let f = cur.last();
                assert(frames_view(self.stack@) =~= cur.update(cur.len() - 1, FrameView { next: f.next + 1, ..f }));
            }
            match include_target(base.as_str(), value.as_str()) {
                Err(message) => {
                    let ghost prior = self.errors@;
                    let ghost m = message@;
                    self.errors.push(ManifestError { file, span: Some(Range { start, end }), message });
                    proof {
                        assert(self.errors@.take(old(self).errors@.len() as int) =~= prior.take(
                            old(self).errors@.len() as int,
                        ));
                        assert(errors_view(self.errors@) =~= errors_view(prior).push(
                            (cur.last().path, Some((start as int, end as int)), m),
                        ));
                    }
                },
                Ok(child) => {
                    self.waiting = Waiting::Exists { path: child, value, start, end };
                    return;
                },
            }
        }
    }

    /// Takes what the caller found for the awaited action and gives the
    /// next one. An event that does not answer the awaited action changes
    /// nothing. A canonical path already in the chain is an include of a
    /// file by itself (directly or through others): it is reported as
    /// `recursive icon manifest include` and not followed.
    pub fn step(&mut self, event: DiscoveryEvent) -> (r: DiscoveryAction)
        requires
            old(self).wf(),
        ensures
            final(self).wf(),
            asks(final(self).waiting, r),
            final(self).errors@.len() >= old(self).errors@.len(),
            final(self).errors@.take(old(self).errors@.len() as int) == old(self).errors@,
            !answers(old(self).waiting, event) ==> *final(self) == *old(self),
            old(self).waiting is Finished ==> r is Done,
            old(self).waiting is Canonical ==> match event {
                DiscoveryEvent::Canonical(p) => if chain(old(self).stack@).contains(p@) {
                    &&& graph_nodes(final(self).graph) == graph_nodes(old(self).graph)
                    &&& final(self).errors@.len() > old(self).errors@.len()
                    &&& error_view(final(self).errors@[old(self).errors@.len() as int]) == (
                        p@,
                        None::<(int, int)>,
                        recursion_message(),
                    )
                    &&& settled_as(
                        *final(self),
                        after_finish(
                            frames_view(old(self).stack@),
                            graph_edges(old(self).graph),
                            errors_view(old(self).errors@).push((p@, None, recursion_message())),
                            None,
                            graph_nodes(old(self).graph).len() as int,
                        ),
                    )
                } else {
                    &&& r matches DiscoveryAction::Read { path } && path@ == p@
                    &&& graph_nodes(final(self).graph) == graph_nodes(old(self).graph)
                    &&& final(self).errors@ == old(self).errors@
                },
                _ => true,
            },
            old(self).waiting matches Waiting::Content { path } ==> match event {
                DiscoveryEvent::ReadFailed(reason) => {
                    &&& final(self).errors@.len() > old(self).errors@.len()
                    &&& error_view(final(self).errors@[old(self).errors@.len() as int]) == (
                        path@,
                        None::<(int, int)>,
                        read_failed_message(reason@),
                    )
                    &&& graph_nodes(old(self).graph).len() < 0xffff_ffff ==> graph_nodes(final(self).graph) == graph_nodes(
                        old(self).graph,
                    ).push((path@, Seq::<char>::empty(), Seq::<char>::empty()))
                    &&& settled_as(
                        *final(self),
                        after_read_failed(
                            frames_view(old(self).stack@),
                            graph_edges(old(self).graph),
                            errors_view(old(self).errors@),
                            path@,
                            reason@,
                            graph_nodes(old(self).graph).len() as int,
                        ),
                    )
                },
                DiscoveryEvent::Content { content, workspace_root } => {
                    &&& graph_nodes(final(self).graph) == (if graph_nodes(old(self).graph).len() < 0xffff_ffff {
                        graph_nodes(old(self).graph).push((path@, stored_text(content@), workspace_root@))
                    } else {
                        graph_nodes(old(self).graph)
                    })
                    &&& settled_as(
                        *final(self),
                        after_read(
                            frames_view(old(self).stack@),
                            graph_edges(old(self).graph),
                            errors_view(old(self).errors@),
                            path@,
                            content@,
                            graph_nodes(old(self).graph).len() as int,
                        ),
                    )
                },
                _ => true,
            },
            old(self).waiting matches Waiting::Exists { path, value, start, end } ==> match event {
                DiscoveryEvent::Exists(true) => {
                    &&& r matches DiscoveryAction::Canonicalize { path: p } && p@ == path@
                    &&& graph_nodes(final(self).graph) == graph_nodes(old(self).graph)
                    &&& final(self).errors@ == old(self).errors@
                },
                DiscoveryEvent::Exists(false) => {
                    &&& graph_nodes(final(self).graph) == graph_nodes(old(self).graph)
                    &&& final(self).errors@.len() > old(self).errors@.len()
                    &&& error_view(final(self).errors@[old(self).errors@.len() as int]) == (
                        old(self).stack@.last().path@,
                        Some((start as int, end as int)),
                        "`[link]` includes a file that doesn't exist: `"@ + value@ + "` (resolved to "@ + path@ + ")"@,
                    )
                    &&& settled_as(
                        *final(self),
                        after_advance(
                            frames_view(old(self).stack@),
                            graph_edges(old(self).graph),
                            errors_view(old(self).errors@).push(
                                (
                                    old(self).stack@.last().path@,
                                    Some((start as int, end as int)),
                                    "`[link]` includes a file that doesn't exist: `"@ + value@ + "` (resolved to "@ + path@
                                        + ")"@,
                                ),
                            ),
                            graph_nodes(old(self).graph).len() as int,
                        ),
                    )
                },
                _ => true,
            },
    {
        match (&self.waiting, event) {
            (Waiting::Canonical { .. }, DiscoveryEvent::Canonical(p)) => {
                if self.on_stack(&p) {
                    let ghost prior = self.errors@;
                    let ghost p_v = p@;
                    self.errors.push(
                        ManifestError { file: p, span: None, message: "recursive icon manifest include".to_string() },
                    );
                    proof {
                        assert(self.stack@.len() > 0);
                    }
                    let ghost pushed = self.errors@;
                    proof {
                        assert(pushed[prior.len() as int].message@ == recursion_message());
                        assert(errors_view(pushed) =~= errors_view(prior).push((p_v, None, recursion_message())));
                    }
                    self.finish_file(None);
                    proof {
                        assert(self.errors@[prior.len() as int] == self.errors@.take(pushed.len() as int)[prior.len() as int]);
                        assert(self.errors@.take(prior.len() as int) =~= pushed.take(prior.len() as int));
                    }
                    self.action()
                } else {
                    self.waiting = Waiting::Content { path: p.clone() };
                    DiscoveryAction::Read { path: p }
                }
            },
            (Waiting::Content { path }, DiscoveryEvent::Content { content, workspace_root }) => {
                let path = path.clone();
                let ghost prior = self.errors@;
                let includes = extract_includes(&path, content.as_str(), &mut self.errors);
                let ghost extracted = self.errors@;
                let ghost stack_v = frames_view(self.stack@);
                proof {
                    assert(chain(self.stack@) =~= view_chain(stack_v));
                }
                let stored = match includes {
                    Some(_) => content,
                    None => String::new(),
                };
                let file = ManifestFile { path: path.clone(), content: stored, workspace_root };
                let ghost count = graph_nodes(self.graph).len();
                let added = add_file(&mut self.graph, file);
                proof {
                    assert forall|i: int| 0 <= i < self.stack@.len() implies (#[trigger] self.stack@[i]).node < count by {}
                }
                match (added, includes) {
                    (Some(node), Some(list)) => {
                        if self.on_stack(&path) {
                            self.finish_file(Some(node));
                        } else {
                            proof {
                                assert forall|i: int| 0 <= i < self.stack@.len() implies (#[trigger] self.stack@[i]).path@ != path@ by {
                                    assert(chain(self.stack@)[i] == self.stack@[i].path@);
                                }
                            }
                            let ghost path_v = path@;
                            let ghost list_v = include_view(list@);
                            self.stack.push(Frame { path, node, includes: list, next: 0 });
                            proof {
                                assert(frames_view(self.stack@) =~= stack_v.push(
                                    FrameView { path: path_v, node: node as int, includes: list_v, next: 0 },
                                ));
                            }
                            self.advance();
                        }
                    },
                    (added, _) => {
                        self.finish_file_or_root(added);
                    },
                }
                proof {
                    assert(self.errors@.take(prior.len() as int) =~= self.errors@.take(extracted.len() as int).take(
                        prior.len() as int,
                    ));
                }
                self.action()
            },
            (Waiting::Content { path }, DiscoveryEvent::ReadFailed(reason)) => {
                let path = path.clone();
                let ghost errors0 = errors_view(self.errors@);
                let mut m: Vec<char> = Vec::new();
                push_str(&mut m, "failed to read file: ");
                push_str(&mut m, reason.as_str());
                let ghost prior = self.errors@;
                let ghost path_v0 = path@;
                self.errors.push(ManifestError { file: path.clone(), span: None, message: string_of(m.as_slice()) });
                let ghost pushed = self.errors@;
                let ghost count = graph_nodes(self.graph).len();
                let added = add_file(
                    &mut self.graph,
                    ManifestFile { path, content: String::new(), workspace_root: String::new() },
                );
                proof {
                    assert forall|i: int| 0 <= i < self.stack@.len() implies (#[trigger] self.stack@[i]).node < count by {}
                }
                self.finish_file_or_root(added);
                proof {
                    assert(self.errors@[prior.len() as int] == self.errors@.take(pushed.len() as int)[prior.len() as int]);
                    assert(self.errors@.take(prior.len() as int) =~= pushed.take(prior.len() as int));
                    assert(pushed[prior.len() as int].message@ == read_failed_message(reason@));
                    assert(errors_view(pushed) =~= errors0.push((path_v0, None, read_failed_message(reason@))));
                }
                self.action()
            },
            (Waiting::Exists { path, value, start, end }, DiscoveryEvent::Exists(found)) => {
                let path = path.clone();
                let value = value.clone();
                let span = Range { start: *start, end: *end };
                if found {
                    self.waiting = Waiting::Canonical { path: path.clone() };
                    DiscoveryAction::Canonicalize { path }
                } else {
                    let message = missing_include_message(value.as_str(), path.as_str());
                    let top = self.stack.len() - 1;
                    let file = self.stack[top].path.clone();
                    let ghost prior = self.errors@;
                    let ghost err_v = (file@, Some((span.start as int, span.end as int)), message@);
                    self.errors.push(ManifestError { file, span: Some(span), message });
                    let ghost pushed = self.errors@;
                    proof {
                        assert(errors_view(pushed) =~= errors_view(prior).push(err_v));
                    }
                    self.waiting = Waiting::Canonical { path };
                    self.advance();
                    proof {
                        assert(self.errors@[prior.len() as int] == self.errors@.take(pushed.len() as int)[prior.len() as int]);
                        assert(self.errors@.take(prior.len() as int) =~= pushed.take(prior.len() as int));
                    }
                    self.action()
                }
            },
            (_, _) => self.action(),
        }
    }

    /// A file was read (or failed to be): it is done at once, as the root
    /// when the chain is empty. Beyond petgraph's index space a file is
    /// left out; a root that could not be added leaves the root at node 0.
    fn finish_file_or_root(&mut self, node: Option<usize>)
        requires
            old(self).wf(),
            old(self).waiting is Content,
            node matches Some(n) ==> n == graph_nodes(old(self).graph).len() - 1 && forall|i: int|
                0 <= i < old(self).stack@.len() ==> (#[trigger] old(self).stack@[i]).node < n,
            node is None ==> graph_nodes(old(self).graph).len() > 0,
        ensures
            final(self).wf(),
            graph_nodes(final(self).graph) == graph_nodes(old(self).graph),
            final(self).errors@.len() >= old(self).errors@.len(),
            final(self).errors@.take(old(self).errors@.len() as int) == old(self).errors@,
            settled_as(
                *final(self),
                after_finish(
                    frames_view(old(self).stack@),
                    graph_edges(old(self).graph),
                    errors_view(old(self).errors@),
                    match node {
                        Some(n) => Some(n as int),
                        None => None,
                    },
                    graph_nodes(old(self).graph).len() as int,
                ),
            ),
    {
        if self.stack.len() == 0 && node.is_none() {
            self.waiting = Waiting::Finished { root: 0 };
            return;
        }
        self.finish_file(node);
    }
}

} // verus!
