//! Loading the configuration: the walk over the main file and the files it
//! includes (depth first, each file once, at most eight levels deep), and
//! the live reload that follows the files' modification times.
use vstd::prelude::*;
use crate::config::{
    apply_document, apply_document_spec, document_ok, include_depth_exceeded, include_names, includes_upto, Config,
    MAX_INCLUDE_DEPTH,
};
use crate::kdl_doc::{nodes_view, ConfigNode};
use crate::session::{path_join, path_joined};
use crate::text::{chars_of, string_of, strings_view};

verus! {

/// What `Path::new(path).parent()` gives, as text (empty when there is no
/// parent).
pub uninterp spec fn parent_dir_of(path: Seq<char>) -> Seq<char>;

/// Calls `std::path::Path::parent` on UTF-8 text, an empty path standing for
/// "no parent". The contract claims only that the result is a function of
/// the text: how `parent` splits components is left unsaid.
#[verifier::external_body]
fn path_parent(path: &str) -> (r: String)
    ensures
        r@ == parent_dir_of(path@),
{
    std::path::Path::new(path).parent().map(|p| p.to_string_lossy().into_owned()).unwrap_or_default()
}

/// A path is absolute on Unix when it starts at the root, `/`.
pub open spec fn is_absolute_path(p: Seq<char>) -> bool {
    p.len() > 0 && p[0] == '/'
}

/// Where an include names a file: an absolute name as it is, a relative
/// one inside `dir`.
pub open spec fn include_target(dir: Seq<char>, name: Seq<char>) -> Seq<char> {
    if is_absolute_path(name) {
        name
    } else {
        path_joined(dir, name)
    }
}

/// The files that a document found in `dir` includes, in order.
pub open spec fn include_targets_spec(dir: Seq<char>, doc: Seq<ConfigNode>) -> Seq<Seq<char>> {
    includes_upto(nodes_view(doc), doc.len() as int).map_values(|n: Seq<char>| include_target(dir, n))
}

/// The files that `doc`, found in `dir`, includes, in order.
pub fn include_targets(dir: &str, doc: &[ConfigNode]) -> (t: Vec<String>)
    ensures
        strings_view(t@) == include_targets_spec(dir@, doc@),
{
    let names = include_names(doc);
    let ghost ns = strings_view(names@);
    let mut t: Vec<String> = Vec::new();
    let mut i: usize = 0;
    while i < names.len()
        invariant
            i <= names@.len(),
            ns == strings_view(names@),
            ns == includes_upto(nodes_view(doc@), doc@.len() as int),
            strings_view(t@) =~= ns.take(i as int).map_values(|n: Seq<char>| include_target(dir@, n)),
        decreases names@.len() - i,
    {
        let name = names[i].as_str();
        proof {
            assert(ns[i as int] == name@);
        }
        let cs = chars_of(name);
        let absolute = cs.len() > 0 && cs[0] == '/';
        let ghost before = t@;
        let item = if absolute {
            names[i].clone()
        } else {
            path_join(dir, name)
        };
        t.push(item);
        proof {
            assert(absolute == is_absolute_path(name@));
            assert(item@ == include_target(dir@, ns[i as int]));
            assert(t@ == before.push(item));
            assert(strings_view(t@) =~= strings_view(before).push(item@));
            assert(strings_view(t@) =~= ns.take(i + 1).map_values(|n: Seq<char>| include_target(dir@, n)));
        }
        i = i + 1;
    }
    proof {
        assert(ns.take(names@.len() as int) =~= ns);
    }
    t
}

/// The files of one document still to visit.
pub struct IncludeFrame {
    /// Its include targets, in order.
    pub targets: Vec<String>,
    /// How many of them were handed out.
    pub next: usize,
    /// How deep the document sits (0 for the main file).
    pub depth: usize,
}

/// The abstract content of an [`IncludeFrame`].
pub ghost struct FrameView {
    pub targets: Seq<Seq<char>>,
    pub next: int,
    pub depth: int,
}

impl View for IncludeFrame {
    type V = FrameView;

    open spec fn view(&self) -> FrameView {
        FrameView { targets: strings_view(self.targets@), next: self.next as int, depth: self.depth as int }
    }
}

/// The walk over the included files, depth first.
pub struct IncludeWalk {
    /// The documents whose includes are being visited, innermost last.
    pub frames: Vec<IncludeFrame>,
    /// The resolved paths of every file visited, the main one first.
    pub visited: Vec<String>,
    /// The files that contributed, in the order they were applied.
    pub sources: Vec<String>,
}

/// The abstract content of an [`IncludeWalk`].
pub ghost struct WalkView {
    pub frames: Seq<FrameView>,
    pub visited: Seq<Seq<char>>,
    pub sources: Seq<Seq<char>>,
}

impl View for IncludeWalk {
    type V = WalkView;

    open spec fn view(&self) -> WalkView {
        WalkView {
            frames: self.frames@.map_values(|f: IncludeFrame| f@),
            visited: strings_view(self.visited@),
            sources: strings_view(self.sources@),
        }
    }
}

/// The next file to visit, and the frames after handing it out: the next
/// target of the innermost document that has one left, finished documents
/// being dropped on the way; `None` when every document is finished.
pub open spec fn walk_next(frames: Seq<FrameView>) -> (Seq<FrameView>, Option<Seq<char>>)
    decreases frames.len(),
{
    if frames.len() == 0 {
        (frames, None)
    } else {
        let top = frames.last();
        if 0 <= top.next < top.targets.len() {
            (
                frames.update(frames.len() - 1, FrameView { next: top.next + 1, ..top }),
                Some(top.targets[top.next]),
            )
        } else {
            walk_next(frames.drop_last())
        }
    }
}

/// A frame as the walk keeps it: it has handed out no more targets than it
/// holds, and sits no deeper than includes may nest.
pub open spec fn frame_ok(f: FrameView) -> bool {
    0 <= f.next <= f.targets.len() && 0 <= f.depth <= MAX_INCLUDE_DEPTH
}

pub open spec fn frames_ok(fs: Seq<FrameView>) -> bool {
    forall|i: int| 0 <= i < fs.len() ==> #[trigger] frame_ok(fs[i])
}

impl IncludeWalk {
    /// Start the walk at the main file `master` (resolved to `canonical`),
    /// whose document is `doc`.
    pub fn start(master: &str, canonical: &str, doc: &[ConfigNode]) -> (w: IncludeWalk)
        ensures
            w@.frames == seq![
                FrameView { targets: include_targets_spec(parent_dir_of(master@), doc@), next: 0, depth: 0 },
            ],
            w@.visited == seq![canonical@],
            w@.sources == seq![master@],
            frames_ok(w@.frames),
    {
        let dir = path_parent(master);
        let targets = include_targets(dir.as_str(), doc);
        let mut frames: Vec<IncludeFrame> = Vec::new();
        frames.push(IncludeFrame { targets, next: 0, depth: 0 });
        let mut visited: Vec<String> = Vec::new();
        visited.push(string_of(chars_of(canonical).as_slice()));
        let mut sources: Vec<String> = Vec::new();
        sources.push(string_of(chars_of(master).as_slice()));
        let w = IncludeWalk { frames, visited, sources };
        proof {
            assert(w@.frames =~= seq![
                FrameView { targets: include_targets_spec(parent_dir_of(master@), doc@), next: 0, depth: 0 },
            ]);
            assert(w@.visited =~= seq![canonical@]);
            assert(w@.sources =~= seq![master@]);
        }
        w
    }

    /// Hand out the next file to visit.
    pub fn next_target(&mut self) -> (t: Option<String>)
        requires
            frames_ok(old(self)@.frames),
        ensures
            (final(self)@.frames, match t {
                Some(s) => Some(s@),
                None => None,
            }) == walk_next(old(self)@.frames),
            final(self)@.visited == old(self)@.visited,
            final(self)@.sources == old(self)@.sources,
            frames_ok(final(self)@.frames),
        decreases old(self)@.frames.len(),
    {
        let n = self.frames.len();
        if n == 0 {
            return None;
        }
        let next = self.frames[n - 1].next;
        let len = self.frames[n - 1].targets.len();
        proof {
            assert(self@.frames.last() == self.frames@[n - 1]@);
            assert(frame_ok(self@.frames[n - 1]));
        }
        if next < len {
            let t = self.frames[n - 1].targets[next].clone();
            let ghost before = self@.frames;
            let mut top = self.frames.pop().unwrap();
            top.next = next + 1;
            self.frames.push(top);
            proof {
                assert(self@.frames =~= before.update(n - 1, FrameView { next: before.last().next + 1, ..before.last() }));
                assert(frame_ok(self@.frames[n - 1]));
                assert forall|i: int| 0 <= i < self@.frames.len() implies #[trigger] frame_ok(self@.frames[i]) by {
                    if i < n - 1 {
                        assert(self@.frames[i] == before[i]);
                    }
                }
            }
            Some(t)
        } else {
            let ghost before = self@.frames;
            self.frames.pop();
            proof {
                assert(self@.frames =~= before.drop_last());
            }
            self.next_target()
        }
    }

    /// Record that the file at `canonical` is visited; `false` (and nothing
    /// changes) when it was visited before.
    pub fn claim(&mut self, canonical: &str) -> (fresh: bool)
        ensures
            fresh == !old(self)@.visited.contains(canonical@),
            final(self)@.visited == (if fresh {
                old(self)@.visited.push(canonical@)
            } else {
                old(self)@.visited
            }),
            final(self)@.frames == old(self)@.frames,
            final(self)@.sources == old(self)@.sources,
    {
        let ghost vs = self@.visited;
        let mut i: usize = 0;
        while i < self.visited.len()
            invariant
                i <= self.visited@.len(),
                vs == strings_view(self.visited@),
                forall|j: int| 0 <= j < i ==> vs[j] != canonical@,
            decreases self.visited@.len() - i,
        {
            if crate::text::str_eq(self.visited[i].as_str(), canonical) {
                proof {
                    assert(vs[i as int] == canonical@);
                }
                return false;
            }
            i = i + 1;
        }
        self.visited.push(string_of(chars_of(canonical).as_slice()));
        proof {
            assert(self@.visited =~= vs.push(canonical@));
        }
        true
    }

    /// The file `target`, handed out last, was read as `doc`: apply it to
    /// `config`, count it as a source, and visit its own includes next, one
    /// level deeper. Past the depth limit the load fails.
    pub fn included(&mut self, config: &mut Config, target: &str, doc: &[ConfigNode]) -> (r: Result<(), IncludeTooDeep>)
        requires
            old(self)@.frames.len() > 0,
            frames_ok(old(self)@.frames),
            document_ok(nodes_view(doc@)),
        ensures
            final(config)@ == apply_document_spec(old(config)@, nodes_view(doc@)),
            final(self)@.sources == old(self)@.sources.push(target@),
            final(self)@.visited == old(self)@.visited,
            ({
                let d = old(self)@.frames.last().depth + 1;
                &&& r is Ok <==> d <= MAX_INCLUDE_DEPTH
                &&& r is Ok ==> final(self)@.frames == old(self)@.frames.push(
                    FrameView { targets: include_targets_spec(parent_dir_of(target@), doc@), next: 0, depth: d },
                )
                &&& r is Err ==> final(self)@.frames == old(self)@.frames
            }),
            frames_ok(final(self)@.frames),
    {
        apply_document(config, doc);
        self.sources.push(string_of(chars_of(target).as_slice()));
        let n = self.frames.len();
        let depth = self.frames[n - 1].depth;
        proof {
            assert(self@.frames.last() == self.frames@[n - 1]@);
            assert(frame_ok(self@.frames[n - 1]));
            assert(self@.sources =~= old(self)@.sources.push(target@));
        }
        if include_depth_exceeded(depth + 1) {
            return Err(IncludeTooDeep);
        }
        let dir = path_parent(target);
        let targets = include_targets(dir.as_str(), doc);
        let ghost before = self@.frames;
        self.frames.push(IncludeFrame { targets, next: 0, depth: depth + 1 });
        proof {
            assert(self@.frames =~= before.push(
                FrameView { targets: include_targets_spec(parent_dir_of(target@), doc@), next: 0, depth: depth + 1 },
            ));
            assert forall|i: int| 0 <= i < self@.frames.len() implies #[trigger] frame_ok(self@.frames[i]) by {
                if i < n {
                    assert(self@.frames[i] == before[i]);
                }
            }
        }
        Ok(())
    }
}

/// Includes nested deeper than [`MAX_INCLUDE_DEPTH`] levels.
#[derive(Debug, Clone, Copy, PartialEq, Eq, Structural)]
pub struct IncludeTooDeep;

} // verus!

verus! {

/// The configuration being followed: the settings, the files they came
/// from, and the newest modification time seen among them.
pub struct ConfigWatch {
    pub config: Config,
    /// Newest modification time of the sources when last looked at, as
    /// nanoseconds since the Unix epoch.
    pub last_modified: Option<u128>,
    /// The main configuration file.
    pub file_path: String,
    /// The files of the last good load, the main one first.
    pub loaded_paths: Vec<String>,
}

impl ConfigWatch {
    /// Follow the configuration in `file_path`, starting from the built-in
    /// settings and no load seen yet.
    pub fn new(file_path: String) -> (w: ConfigWatch)
        ensures
            crate::config::default_config_spec(w.config@),
            w.last_modified is None,
            w.file_path == file_path,
            w.loaded_paths@.len() == 0,
    {
        ConfigWatch { config: Config::new(), last_modified: None, file_path, loaded_paths: Vec::new() }
    }

    /// The files whose modification times decide a reload: those of the
    /// last good load, or the main file before there was one.
    pub fn current_sources(&self) -> (s: Vec<String>)
        ensures
            strings_view(s@) == (if self.loaded_paths@.len() == 0 {
                seq![self.file_path@]
            } else {
                strings_view(self.loaded_paths@)
            }),
    {
        let mut s: Vec<String> = Vec::new();
        if self.loaded_paths.len() == 0 {
            s.push(self.file_path.clone());
            proof {
                assert(strings_view(s@) =~= seq![self.file_path@]);
            }
            return s;
        }
        let mut i: usize = 0;
        while i < self.loaded_paths.len()
            invariant
                i <= self.loaded_paths@.len(),
                strings_view(s@) =~= strings_view(self.loaded_paths@).take(i as int),
            decreases self.loaded_paths@.len() - i,
        {
            let ghost before = s@;
            let item = self.loaded_paths[i].clone();
            s.push(item);
            proof {
                assert(item@ == strings_view(self.loaded_paths@)[i as int]);
                assert(strings_view(s@) =~= strings_view(before).push(item@));
                assert(strings_view(s@) =~= strings_view(self.loaded_paths@).take(i + 1));
            }
            i = i + 1;
        }
        proof {
            assert(strings_view(self.loaded_paths@).take(self.loaded_paths@.len() as int) =~= strings_view(
                self.loaded_paths@,
            ));
        }
        s
    }

    /// Look at the newest modification time among the sources: a reload is
    /// due when it differs from the one seen last, which it then becomes.
    pub fn reload_due(&mut self, newest: Option<u128>) -> (due: bool)
        ensures
            due == (newest != old(self).last_modified),
            final(self).last_modified == newest,
            final(self).config == old(self).config,
            final(self).file_path == old(self).file_path,
            final(self).loaded_paths == old(self).loaded_paths,
    {
        let due = match (newest, self.last_modified) {
            (Some(a), Some(b)) => a != b,
            (None, None) => false,
            _ => true,
        };
        self.last_modified = newest;
        due
    }

    /// Take the result of reloading: a good load replaces the settings and
    /// the source list; a failed one leaves both as they were. Returns
    /// whether the settings changed.
    pub fn apply_reload(&mut self, outcome: Option<(Config, Vec<String>)>) -> (changed: bool)
        ensures
            changed == outcome is Some,
            match outcome {
                Some((c, srcs)) => final(self).config == c && final(self).loaded_paths == srcs,
                None => final(self).config == old(self).config && final(self).loaded_paths == old(
                    self,
                ).loaded_paths,
            },
            final(self).last_modified == old(self).last_modified,
            final(self).file_path == old(self).file_path,
    {
        match outcome {
            Some((c, srcs)) => {
                self.config = c;
                self.loaded_paths = srcs;
                true
            },
            None => false,
        }
    }
}

} // verus!
