//! The directory builder: the tree of directories, files, symlinks, bind
//! mounts and mounts that the launcher materializes as the sandbox root.
//! Paths are forward-slash relative; intermediate directories come into
//! being as needed; every entry's parent is a directory.
//!
//! Unless a mode is given explicitly, a created directory is `0o755` and a
//! created file `0o644`.

use vstd::prelude::*;

use crate::error::Error;
use crate::mountplan::{FsPlanV, MountHandle};
use crate::text::{find_char, no_sep, split_chars, split_str, str_eq, views_of};

verus! {

/// One node of the tree.
#[derive(Debug)]
pub enum Node {
    Dir { mode: u32 },
    File { mode: u32, content: String },
    Symlink { target: String },
    BindFile { source: String },
    BindDir { source: String },
    Mount { handle: MountHandle },
}

/// The mathematical shape of a node. A bind source is the absolute host
/// path the mount is cloned from.
pub enum NodeV {
    Dir { mode: u32 },
    File { mode: u32, content: Seq<char> },
    Symlink { target: Seq<char> },
    BindFile { source: Seq<char> },
    BindDir { source: Seq<char> },
    Mount { plan: FsPlanV },
}

impl View for Node {
    type V = NodeV;

    open spec fn view(&self) -> NodeV {
        match self {
            Node::Dir { mode } => NodeV::Dir { mode: *mode },
            Node::File { mode, content } => NodeV::File { mode: *mode, content: content@ },
            Node::Symlink { target } => NodeV::Symlink { target: target@ },
            Node::BindFile { source } => NodeV::BindFile { source: source@ },
            Node::BindDir { source } => NodeV::BindDir { source: source@ },
            Node::Mount { handle } => NodeV::Mount { plan: handle.plan@ },
        }
    }
}

/// Nodes a process inside the sandbox sees as a regular file.
pub open spec fn is_file_node(n: NodeV) -> bool {
    n is File || n is BindFile
}

/// Nodes a process inside the sandbox sees as a directory: a created
/// directory, or a mount or directory bind attached over one.
pub open spec fn dir_like(n: NodeV) -> bool {
    n is Dir || n is Mount || n is BindDir
}

/// A usable path: at least one component, each nonempty and free of `/`.
pub open spec fn path_ok(p: Seq<Seq<char>>) -> bool {
    p.len() >= 1 && forall|t: int|
        0 <= t < p.len() ==> (#[trigger] p[t]).len() > 0 && no_sep(p[t], '/')
}

/// No two entries carry the same path.
pub open spec fn entries_unique(entries: Seq<(Vec<String>, Node)>) -> bool {
    forall|i: int, j: int|
        0 <= i < j < entries.len() ==> views_of(#[trigger] entries[i].0@) != views_of(
            #[trigger] entries[j].0@,
        )
}

/// The tree as a map from component paths to nodes.
pub open spec fn map_of(entries: Seq<(Vec<String>, Node)>) -> Map<Seq<Seq<char>>, NodeV>
    decreases entries.len(),
{
    if entries.len() == 0 {
        Map::empty()
    } else {
        map_of(entries.drop_last()).insert(views_of(entries.last().0@), entries.last().1@)
    }
}

proof fn lemma_map_of_contains(entries: Seq<(Vec<String>, Node)>, i: int)
    requires
        0 <= i < entries.len(),
    ensures
        map_of(entries).dom().contains(views_of(entries[i].0@)),
    decreases entries.len(),
{
    if i < entries.len() - 1 {
        lemma_map_of_contains(entries.drop_last(), i);
        assert(entries.drop_last()[i] == entries[i]);
    }
}

proof fn lemma_map_of_index(entries: Seq<(Vec<String>, Node)>, i: int)
    requires
        0 <= i < entries.len(),
        entries_unique(entries),
    ensures
        map_of(entries).dom().contains(views_of(entries[i].0@)),
        map_of(entries)[views_of(entries[i].0@)] == entries[i].1@,
    decreases entries.len(),
{
    lemma_map_of_contains(entries, i);
    if i < entries.len() - 1 {
        assert(entries_unique(entries.drop_last())) by {
            assert forall|a: int, b: int| 0 <= a < b < entries.drop_last().len() implies views_of(
                #[trigger] entries.drop_last()[a].0@,
            ) != views_of(#[trigger] entries.drop_last()[b].0@) by {
                assert(entries.drop_last()[a] == entries[a]);
                assert(entries.drop_last()[b] == entries[b]);
            }
        }
        lemma_map_of_index(entries.drop_last(), i);
        assert(entries.drop_last()[i] == entries[i]);
        assert(views_of(entries[i].0@) != views_of(entries.last().0@)) by {
            assert(entries.last() == entries[entries.len() - 1]);
        }
    }
}

proof fn lemma_map_of_absent(entries: Seq<(Vec<String>, Node)>, p: Seq<Seq<char>>)
    requires
        forall|i: int| 0 <= i < entries.len() ==> views_of(#[trigger] entries[i].0@) != p,
    ensures
        !map_of(entries).dom().contains(p),
    decreases entries.len(),
{
    if entries.len() > 0 {
        assert forall|i: int| 0 <= i < entries.drop_last().len() implies views_of(
            #[trigger] entries.drop_last()[i].0@,
        ) != p by {
            assert(entries.drop_last()[i] == entries[i]);
        }
        lemma_map_of_absent(entries.drop_last(), p);
        assert(views_of(entries.last().0@) != p) by {
            assert(entries.last() == entries[entries.len() - 1]);
        }
    }
}

/// Every entry's parent is a present directory: the shape the tree keeps.
pub open spec fn wf_map(m: Map<Seq<Seq<char>>, NodeV>) -> bool {
    forall|p: Seq<Seq<char>>|
        #[trigger] m.dom().contains(p) ==> path_ok(p) && (p.len() > 1 ==> m.dom().contains(
            p.drop_last(),
        ) && dir_like(m[p.drop_last()]))
}

/// `q` is a nonempty prefix of `p`.
pub open spec fn is_prefix(q: Seq<Seq<char>>, p: Seq<Seq<char>>) -> bool {
    0 < q.len() <= p.len() && q == p.take(q.len() as int)
}

/// `m` with every missing prefix of `p` added as a directory with `mode`.
pub open spec fn with_dirs(m: Map<Seq<Seq<char>>, NodeV>, p: Seq<Seq<char>>, mode: u32) -> Map<
    Seq<Seq<char>>,
    NodeV,
>
    decreases p.len(),
{
    if p.len() == 0 {
        m
    } else {
        let m2 = with_dirs(m, p.drop_last(), mode);
        if m2.dom().contains(p) {
            m2
        } else {
            m2.insert(p, NodeV::Dir { mode })
        }
    }
}

/// Existing entries are untouched; what appears is a directory at a prefix;
/// afterwards every prefix is present.
pub proof fn lemma_with_dirs_props(m: Map<Seq<Seq<char>>, NodeV>, p: Seq<Seq<char>>, mode: u32)
    ensures
        forall|q: Seq<Seq<char>>| #[trigger] m.dom().contains(q) ==> with_dirs(
            m,
            p,
            mode,
        ).dom().contains(q) && with_dirs(m, p, mode)[q] == m[q],
        forall|q: Seq<Seq<char>>| #[trigger] with_dirs(m, p, mode).dom().contains(q) ==> (
        m.dom().contains(q) || (is_prefix(q, p) && with_dirs(m, p, mode)[q] == (NodeV::Dir {
            mode,
        }))),
        forall|k: int|
            0 < k <= p.len() ==> with_dirs(m, p, mode).dom().contains(#[trigger] p.take(k)),
    decreases p.len(),
{
    if p.len() == 0 {
    } else {
        lemma_with_dirs_props(m, p.drop_last(), mode);
        let m2 = with_dirs(m, p.drop_last(), mode);
        assert(p.take(p.len() as int) =~= p);
        assert forall|k: int| 0 < k <= p.len() implies with_dirs(m, p, mode).dom().contains(
            #[trigger] p.take(k),
        ) by {
            if k < p.len() {
                assert(p.drop_last().take(k) =~= p.take(k));
            }
        }
        assert forall|q: Seq<Seq<char>>| #[trigger] with_dirs(m, p, mode).dom().contains(q)
            implies (m.dom().contains(q) || (is_prefix(q, p) && with_dirs(m, p, mode)[q]
            == (NodeV::Dir { mode }))) by {
            if q != p && m2.dom().contains(q) && !m.dom().contains(q) {
                assert(is_prefix(q, p.drop_last()));
                assert(p.drop_last().take(q.len() as int) =~= p.take(q.len() as int));
            }
        }
    }
}

/// When every prefix already exists nothing changes.
pub proof fn lemma_with_dirs_all_present(m: Map<Seq<Seq<char>>, NodeV>, p: Seq<Seq<char>>, mode: u32)
    requires
        forall|k: int| 0 < k <= p.len() ==> m.dom().contains(#[trigger] p.take(k)),
    ensures
        with_dirs(m, p, mode) == m,
    decreases p.len(),
{
    if p.len() > 0 {
        assert forall|k: int| 0 < k <= p.drop_last().len() implies m.dom().contains(
            #[trigger] p.drop_last().take(k),
        ) by {
            assert(p.drop_last().take(k) =~= p.take(k));
        }
        lemma_with_dirs_all_present(m, p.drop_last(), mode);
        assert(p.take(p.len() as int) =~= p);
        assert(m.dom().contains(p));
    }
}

/// In a well-formed tree, every ancestor of a present path is a present
/// directory.
pub proof fn lemma_wf_ancestors(m: Map<Seq<Seq<char>>, NodeV>, p: Seq<Seq<char>>)
    requires
        wf_map(m),
        m.dom().contains(p),
    ensures
        forall|k: int| 0 < k <= p.len() ==> m.dom().contains(#[trigger] p.take(k)),
        forall|k: int| 0 < k < p.len() ==> dir_like(m[#[trigger] p.take(k)]),
    decreases p.len(),
{
    assert(path_ok(p));
    if p.len() > 1 {
        lemma_wf_ancestors(m, p.drop_last());
        assert forall|k: int| 0 < k <= p.len() implies m.dom().contains(#[trigger] p.take(k)) by {
            if k < p.len() {
                assert(p.drop_last().take(k) =~= p.take(k));
            } else {
                assert(p.take(k) =~= p);
            }
        }
        assert forall|k: int| 0 < k < p.len() implies dir_like(m[#[trigger] p.take(k)]) by {
            if k < p.len() - 1 {
                assert(p.drop_last().take(k) =~= p.take(k));
            } else {
                assert(p.take(k) =~= p.drop_last());
            }
        }
    } else {
        assert(p.take(1) =~= p);
    }
}

/// Every entry of `m` stands unchanged in `mk`.
pub open spec fn preserves_entries(
    m: Map<Seq<Seq<char>>, NodeV>,
    mk: Map<Seq<Seq<char>>, NodeV>,
) -> bool {
    forall|q: Seq<Seq<char>>| #[trigger] m.dom().contains(q) ==> mk.dom().contains(q) && mk[q]
        == m[q]
}

/// Every proper prefix of `p` that exists in `m` is a directory.
pub open spec fn prefix_dirs_ok(m: Map<Seq<Seq<char>>, NodeV>, p: Seq<Seq<char>>) -> bool {
    forall|k: int|
        0 < k < p.len() ==> (m.dom().contains(#[trigger] p.take(k)) ==> dir_like(m[p.take(k)]))
}

/// Every proper prefix of `p` exists in `m` as a directory.
pub open spec fn parents_present(m: Map<Seq<Seq<char>>, NodeV>, p: Seq<Seq<char>>) -> bool {
    forall|k: int|
        0 < k < p.len() ==> m.dom().contains(#[trigger] p.take(k)) && dir_like(m[p.take(k)])
}

/// Adding missing prefix directories keeps the tree well-formed.
proof fn lemma_with_dirs_wf(m: Map<Seq<Seq<char>>, NodeV>, p: Seq<Seq<char>>, mode: u32)
    requires
        wf_map(m),
        path_ok(p),
        prefix_dirs_ok(m, p),
    ensures
        wf_map(with_dirs(m, p, mode)),
{
    lemma_with_dirs_props(m, p, mode);
    let r = with_dirs(m, p, mode);
    assert forall|q: Seq<Seq<char>>| #[trigger] r.dom().contains(q) implies path_ok(q) && (q.len()
        > 1 ==> r.dom().contains(q.drop_last()) && dir_like(r[q.drop_last()])) by {
        if m.dom().contains(q) {
            if q.len() > 1 {
                assert(r.dom().contains(q.drop_last()));
                assert(r[q.drop_last()] == m[q.drop_last()]);
            }
        } else {
            assert(is_prefix(q, p));
            let k = q.len() as int;
            assert(path_ok(q)) by {
                assert forall|t: int| 0 <= t < q.len() implies (#[trigger] q[t]).len() > 0
                    && no_sep(q[t], '/') by {
                    assert(q[t] == p[t]);
                }
            }
            if q.len() > 1 {
                assert(q.drop_last() =~= p.take(k - 1));
                assert(r.dom().contains(p.take(k - 1)));
                if m.dom().contains(p.take(k - 1)) {
                    assert(dir_like(m[p.take(k - 1)]));
                    assert(r[p.take(k - 1)] == m[p.take(k - 1)]);
                } else {
                    assert(is_prefix(p.take(k - 1), p) && r[p.take(k - 1)] == (NodeV::Dir {
                        mode,
                    }));
                }
            }
        }
    }
}

/// Inserting a node at a fresh path whose parent stands as a directory
/// keeps the tree well-formed.
proof fn lemma_insert_wf(m: Map<Seq<Seq<char>>, NodeV>, p: Seq<Seq<char>>, n: NodeV)
    requires
        wf_map(m),
        path_ok(p),
        !m.dom().contains(p),
        p.len() > 1 ==> m.dom().contains(p.drop_last()) && dir_like(m[p.drop_last()]),
    ensures
        wf_map(m.insert(p, n)),
{
    let r = m.insert(p, n);
    assert forall|q: Seq<Seq<char>>| #[trigger] r.dom().contains(q) implies path_ok(q) && (q.len()
        > 1 ==> r.dom().contains(q.drop_last()) && dir_like(r[q.drop_last()])) by {
        if q != p {
            assert(m.dom().contains(q));
            if q.len() > 1 {
                assert(m.dom().contains(q.drop_last()));
                assert(q.drop_last() != p);
                assert(r[q.drop_last()] == m[q.drop_last()]);
            }
        }
    }
}

/// Outcome of creating a directory chain ending at `p`.
pub open spec fn dir_outcome(
    m: Map<Seq<Seq<char>>, NodeV>,
    p: Seq<Seq<char>>,
    exist_ok: bool,
) -> Result<(), Error> {
    if !path_ok(p) {
        Err(Error::InvalidPath)
    } else if !prefix_dirs_ok(m, p) {
        Err(Error::NotADirectory)
    } else if m.dom().contains(p) {
        if dir_like(m[p]) {
            if exist_ok {
                Ok(())
            } else {
                Err(Error::AlreadyExists)
            }
        } else {
            if exist_ok {
                Err(Error::NotADirectory)
            } else {
                Err(Error::AlreadyExists)
            }
        }
    } else {
        Ok(())
    }
}

/// Outcome of creating a fresh file, or a fresh mount point, at `p`.
pub open spec fn file_outcome(m: Map<Seq<Seq<char>>, NodeV>, p: Seq<Seq<char>>) -> Result<
    (),
    Error,
> {
    if !path_ok(p) {
        Err(Error::InvalidPath)
    } else if !prefix_dirs_ok(m, p) {
        Err(Error::NotADirectory)
    } else if m.dom().contains(p) {
        Err(Error::AlreadyExists)
    } else {
        Ok(())
    }
}

/// Outcome of placing a symlink at `p`: parents must already exist.
pub open spec fn symlink_outcome(m: Map<Seq<Seq<char>>, NodeV>, p: Seq<Seq<char>>) -> Result<
    (),
    Error,
> {
    if !path_ok(p) {
        Err(Error::InvalidPath)
    } else if !prefix_dirs_ok(m, p) {
        Err(Error::NotADirectory)
    } else if !parents_present(m, p) {
        Err(Error::MissingParent)
    } else if m.dom().contains(p) {
        Err(Error::AlreadyExists)
    } else {
        Ok(())
    }
}

/// Where a path stands in the current tree.
enum PathState {
    BadPath,
    PrefixBlocked,
    TargetDir,
    TargetOther,
    TargetMissing,
}

/// The tree builder.
#[derive(Debug)]
pub struct DirBuilder {
    pub entries: Vec<(Vec<String>, Node)>,
}

impl View for DirBuilder {
    type V = Map<Seq<Seq<char>>, NodeV>;

    open spec fn view(&self) -> Map<Seq<Seq<char>>, NodeV> {
        map_of(self.entries@)
    }
}

impl DirBuilder {
    pub open spec fn wf(&self) -> bool {
        entries_unique(self.entries@) && wf_map(self@)
    }

    /// An empty tree.
    pub fn new() -> (r: DirBuilder)
        ensures
            r@ == Map::<Seq<Seq<char>>, NodeV>::empty(),
            r.wf(),
    {
        let r = DirBuilder { entries: Vec::new() };
        proof {
            assert(r@ =~= Map::<Seq<Seq<char>>, NodeV>::empty());
        }
        r
    }

    /// The index of the entry at `path`, if any.
    #[verifier::loop_isolation(false)]
    fn find_entry(&self, path: &Vec<String>) -> (r: Option<usize>)
        ensures
            r matches Some(i) ==> i < self.entries@.len() && views_of(self.entries@[i as int].0@)
                == views_of(path@) && self@.dom().contains(views_of(path@)),
            entries_unique(self.entries@) ==> (r matches Some(i) ==> self@[views_of(path@)]
                == self.entries@[i as int].1@),
            r is None ==> !self@.dom().contains(views_of(path@)),
    {
        let mut i: usize = 0;
        while i < self.entries.len()
            invariant
                i <= self.entries@.len(),
                forall|j: int| 0 <= j < i ==> views_of(#[trigger] self.entries@[j].0@) != views_of(
                    path@,
                ),
            decreases self.entries@.len() - i,
        {
            if path_eq(&self.entries[i].0, path) {
                proof {
                    lemma_map_of_contains(self.entries@, i as int);
                    if entries_unique(self.entries@) {
                        lemma_map_of_index(self.entries@, i as int);
                    }
                }
                return Some(i);
            }
            i += 1;
        }
        proof {
            lemma_map_of_absent(self.entries@, views_of(path@));
        }
        None
    }

    /// Appends a fresh entry.
    fn push_entry(&mut self, path: Vec<String>, node: Node)
        requires
            !old(self)@.dom().contains(views_of(path@)),
        ensures
            final(self)@ == old(self)@.insert(views_of(path@), node@),
            entries_unique(old(self).entries@) ==> entries_unique(final(self).entries@),
    {
        let ghost before = self.entries@;
        let ghost pv = views_of(path@);
        let ghost nv = node@;
        self.entries.push((path, node));
        proof {
            assert(self.entries@.drop_last() =~= before);
            assert(views_of(self.entries@.last().0@) == pv);
            assert(self.entries@.last().1@ == nv);
            assert(self@ == map_of(before).insert(pv, nv));
            if entries_unique(before) {
                assert forall|i: int, j: int| 0 <= i < j < self.entries@.len() implies views_of(
                    #[trigger] self.entries@[i].0@,
                ) != views_of(#[trigger] self.entries@[j].0@) by {
                    if j < before.len() {
                        assert(self.entries@[i] == before[i]);
                        assert(self.entries@[j] == before[j]);
                    } else {
                        assert(self.entries@[i] == before[i]);
                        if views_of(before[i].0@) == pv {
                            lemma_map_of_contains(before, i);
                            assert(false);
                        }
                    }
                }
            }
        }
    }

    /// Classifies `comps` against the tree.
    #[verifier::loop_isolation(false)]
    fn status(&self, comps: &Vec<String>) -> (r: PathState)
        requires
            self.wf(),
        ensures
            ({
                let pv = views_of(comps@);
                match r {
                    PathState::BadPath => !path_ok(pv),
                    PathState::PrefixBlocked => path_ok(pv) && !prefix_dirs_ok(self@, pv),
                    PathState::TargetDir => path_ok(pv) && prefix_dirs_ok(self@, pv)
                        && self@.dom().contains(pv) && dir_like(self@[pv]),
                    PathState::TargetOther => path_ok(pv) && prefix_dirs_ok(self@, pv)
                        && self@.dom().contains(pv) && !dir_like(self@[pv]),
                    PathState::TargetMissing => path_ok(pv) && prefix_dirs_ok(self@, pv)
                        && !self@.dom().contains(pv),
                }
            }),
    {
        let ghost pv = views_of(comps@);
        let n = comps.len();
        if n == 0 {
            return PathState::BadPath;
        }
        let mut t: usize = 0;
        while t < n
            invariant
                n == comps@.len(),
                t <= n,
                forall|u: int| 0 <= u < t ==> (#[trigger] pv[u]).len() > 0 && no_sep(pv[u], '/'),
            decreases n - t,
        {
            let c = comps[t].as_str();
            if c.is_empty() {
                proof {
                    assert(pv[t as int].len() == 0);
                }
                return PathState::BadPath;
            }
            match find_char(c, '/') {
                Some(w) => {
                    proof {
                        assert(pv[t as int][w as int] == '/');
                        assert(!no_sep(pv[t as int], '/'));
                    }
                    return PathState::BadPath;
                },
                None => {},
            }
            t += 1;
        }
        assert(path_ok(pv));
        let mut prefix: Vec<String> = Vec::new();
        let mut k: usize = 0;
        proof {
            assert(views_of(prefix@) =~= pv.take(0));
        }
        while k < n - 1
            invariant
                n == comps@.len(),
                k < n,
                path_ok(pv),
                views_of(prefix@) == pv.take(k as int),
                forall|j: int|
                    0 < j <= k ==> (self@.dom().contains(#[trigger] pv.take(j)) ==> dir_like(
                        self@[pv.take(j)],
                    )),
            decreases n - k,
        {
            let comp = comps[k].clone();
            proof {
                assert(views_of(prefix@.push(comp)) =~= views_of(prefix@).push(comp@));
                assert(pv.take(k + 1) =~= pv.take(k as int).push(pv[k as int]));
            }
            prefix.push(comp);
            match self.find_entry(&prefix) {
                Some(i) => {
                    let is_dir = match &self.entries[i].1 {
                        Node::Dir { .. } => true,
                        Node::Mount { .. } => true,
                        Node::BindDir { .. } => true,
                        _ => false,
                    };
                    if !is_dir {
                        proof {
                            assert(self@[pv.take(k + 1)] == self.entries@[i as int].1@);
                            assert(!dir_like(self@[pv.take(k + 1)]));
                        }
                        return PathState::PrefixBlocked;
                    }
                },
                None => {},
            }
            k += 1;
        }
        assert(prefix_dirs_ok(self@, pv));
        match self.find_entry(comps) {
            Some(i) => {
                let is_dir = match &self.entries[i].1 {
                    Node::Dir { .. } => true,
                    Node::Mount { .. } => true,
                    Node::BindDir { .. } => true,
                    _ => false,
                };
                proof {
                    assert(self@[pv] == self.entries@[i as int].1@);
                }
                if is_dir {
                    PathState::TargetDir
                } else {
                    PathState::TargetOther
                }
            },
            None => PathState::TargetMissing,
        }
    }

    /// Whether every proper prefix of `comps` stands as a directory.
    #[verifier::loop_isolation(false)]
    fn parents_all_present(&self, comps: &Vec<String>) -> (r: bool)
        requires
            self.wf(),
            path_ok(views_of(comps@)),
        ensures
            r == parents_present(self@, views_of(comps@)),
    {
        let ghost pv = views_of(comps@);
        let n = comps.len();
        let mut prefix: Vec<String> = Vec::new();
        let mut k: usize = 0;
        proof {
            assert(views_of(prefix@) =~= pv.take(0));
        }
        while k < n - 1
            invariant
                n == comps@.len(),
                n >= 1,
                k < n,
                pv == views_of(comps@),
                path_ok(pv),
                views_of(prefix@) == pv.take(k as int),
                forall|j: int| 0 < j <= k ==> self@.dom().contains(#[trigger] pv.take(j))
                    && dir_like(self@[pv.take(j)]),
            decreases n - k,
        {
            let comp = comps[k].clone();
            proof {
                assert(views_of(prefix@.push(comp)) =~= views_of(prefix@).push(comp@));
                assert(pv.take(k + 1) =~= pv.take(k as int).push(pv[k as int]));
            }
            prefix.push(comp);
            match self.find_entry(&prefix) {
                Some(i) => {
                    let is_dir = match &self.entries[i].1 {
                        Node::Dir { .. } => true,
                        Node::Mount { .. } => true,
                        Node::BindDir { .. } => true,
                        _ => false,
                    };
                    if !is_dir {
                        proof {
                            assert(self@[pv.take(k + 1)] == self.entries@[i as int].1@);
                        }
                        return false;
                    }
                },
                None => {
                    return false;
                },
            }
            k += 1;
        }
        true
    }

    /// Creates the missing proper prefixes of `comps` as directories.
    #[verifier::loop_isolation(false)]
    fn make_parents(&mut self, comps: &Vec<String>, mode: u32)
        requires
            old(self).wf(),
            path_ok(views_of(comps@)),
            prefix_dirs_ok(old(self)@, views_of(comps@)),
        ensures
            final(self).wf(),
            final(self)@ == with_dirs(old(self)@, views_of(comps@).drop_last(), mode),
    {
        let ghost pv = views_of(comps@);
        let ghost m0 = self@;
        let n = comps.len();
        let mut prefix: Vec<String> = Vec::new();
        let mut k: usize = 0;
        proof {
            assert(views_of(prefix@) =~= pv.take(0));
        }
        while k < n - 1
            invariant
                n == comps@.len(),
                pv == views_of(comps@),
                m0 == old(self)@,
                path_ok(pv),
                prefix_dirs_ok(m0, pv),
                k < n,
                views_of(prefix@) == pv.take(k as int),
                self@ == with_dirs(m0, pv.take(k as int), mode),
                self.wf(),
            decreases n - k,
        {
            let comp = comps[k].clone();
            proof {
                assert(views_of(prefix@.push(comp)) =~= views_of(prefix@).push(comp@));
                assert(pv.take(k + 1) =~= pv.take(k as int).push(pv[k as int]));
            }
            prefix.push(comp);
            let ghost q = pv.take(k + 1);
            proof {
                assert(q.drop_last() =~= pv.take(k as int));
                assert(path_ok(q)) by {
                    assert forall|u: int| 0 <= u < q.len() implies (#[trigger] q[u]).len() > 0
                        && no_sep(q[u], '/') by {
                        assert(q[u] == pv[u]);
                    }
                }
                assert(prefix_dirs_ok(m0, q)) by {
                    assert forall|j: int|
                        0 < j < q.len() && m0.dom().contains(#[trigger] q.take(j)) implies dir_like(
                        m0[q.take(j)],
                    ) by {
                        assert(q.take(j) =~= pv.take(j));
                    }
                }
            }
            match self.find_entry(&prefix) {
                Some(_) => {
                    proof {
                        assert(with_dirs(m0, q, mode) == self@);
                    }
                },
                None => {
                    let owned: Vec<String> = clone_components(&prefix);
                    self.push_entry(owned, Node::Dir { mode });
                    proof {
                        lemma_with_dirs_wf(m0, q, mode);
                        assert(with_dirs(m0, q, mode) == self@);
                    }
                },
            }
            k += 1;
        }
        proof {
            assert(pv.take(n - 1) =~= pv.drop_last());
        }
    }

    /// Creates a directory with the given mode, materializing missing
    /// intermediate directories with the same mode. With `exist_ok` an
    /// existing directory is accepted.
    pub fn create_dir(&mut self, name: &str, mode: u32, exist_ok: bool) -> (r: Result<(), Error>)
        requires
            old(self).wf(),
        ensures
            final(self).wf(),
            r == dir_outcome(old(self)@, split_chars(name@, '/'), exist_ok),
            r is Ok ==> final(self)@ == with_dirs(old(self)@, split_chars(name@, '/'), mode),
            r is Err ==> final(self)@ == old(self)@,
    {
        let ghost pv = split_chars(name@, '/');
        let comps = split_str(name, '/');
        match self.status(&comps) {
            PathState::BadPath => Err(Error::InvalidPath),
            PathState::PrefixBlocked => Err(Error::NotADirectory),
            PathState::TargetDir => {
                if exist_ok {
                    proof {
                        lemma_wf_ancestors(self@, pv);
                        lemma_with_dirs_all_present(self@, pv, mode);
                    }
                    Ok(())
                } else {
                    Err(Error::AlreadyExists)
                }
            },
            PathState::TargetOther => {
                if exist_ok {
                    Err(Error::NotADirectory)
                } else {
                    Err(Error::AlreadyExists)
                }
            },
            PathState::TargetMissing => {
                let ghost m0 = self@;
                self.make_parents(&comps, mode);
                proof {
                    lemma_with_dirs_props(m0, pv.drop_last(), mode);
                    assert(!self@.dom().contains(pv)) by {
                        if self@.dom().contains(pv) {
                            assert(m0.dom().contains(pv) || is_prefix(pv, pv.drop_last()));
                        }
                    }
                }
                let ghost m1 = self@;
                self.push_entry(comps, Node::Dir { mode });
                proof {
                    assert(self@ == with_dirs(m0, pv, mode)) by {
                        assert(with_dirs(m0, pv, mode) == m1.insert(pv, NodeV::Dir { mode }));
                    }
                    lemma_with_dirs_wf(m0, pv, mode);
                }
                Ok(())
            },
        }
    }

    /// Creates a fresh file with the given content, mode `0o644`, creating
    /// missing parent directories with mode `0o755`. After the call the
    /// node at the path is a regular file.
    pub fn write(&mut self, name: &str, content: &str) -> (r: Result<(), Error>)
        requires
            old(self).wf(),
        ensures
            final(self).wf(),
            r == file_outcome(old(self)@, split_chars(name@, '/')),
            r is Ok ==> final(self)@ == with_dirs(
                old(self)@,
                split_chars(name@, '/').drop_last(),
                0o755u32,
            ).insert(
                split_chars(name@, '/'),
                NodeV::File { mode: 0o644u32, content: content@ },
            ),
            r is Ok ==> is_file_node(final(self)@[split_chars(name@, '/')]),
            r is Err ==> final(self)@ == old(self)@,
    {
        self.put_fresh_file_node(
            name,
            Node::File { mode: 0o644, content: content.to_owned() },
        )
    }

    /// Creates a fresh empty file, mode `0o644`.
    pub fn create_file(&mut self, name: &str) -> (r: Result<(), Error>)
        requires
            old(self).wf(),
        ensures
            final(self).wf(),
            r == file_outcome(old(self)@, split_chars(name@, '/')),
            r is Ok ==> final(self)@ == with_dirs(
                old(self)@,
                split_chars(name@, '/').drop_last(),
                0o755u32,
            ).insert(split_chars(name@, '/'), NodeV::File { mode: 0o644u32, content: Seq::empty() }),
            r is Ok ==> is_file_node(final(self)@[split_chars(name@, '/')]),
            r is Err ==> final(self)@ == old(self)@,
    {
        let r = self.put_fresh_file_node(name, Node::File { mode: 0o644, content: String::new() });
        r
    }

    /// Binds the regular file at the absolute host path `source` over a
    /// freshly created file: the node at the path is file-backed, never a
    /// directory.
    pub fn bind_file(&mut self, name: &str, source: &str) -> (r: Result<(), Error>)
        requires
            old(self).wf(),
        ensures
            final(self).wf(),
            r == file_outcome(old(self)@, split_chars(name@, '/')),
            r is Ok ==> final(self)@ == with_dirs(
                old(self)@,
                split_chars(name@, '/').drop_last(),
                0o755u32,
            ).insert(split_chars(name@, '/'), NodeV::BindFile { source: source@ }),
            r is Ok ==> is_file_node(final(self)@[split_chars(name@, '/')]),
            r is Err ==> final(self)@ == old(self)@,
    {
        self.put_fresh_file_node(name, Node::BindFile { source: source.to_owned() })
    }

    /// Places `node` at a fresh path, parents created as `0o755` dirs.
    fn put_fresh_file_node(&mut self, name: &str, node: Node) -> (r: Result<(), Error>)
        requires
            old(self).wf(),
            !(node@ is Dir),
        ensures
            final(self).wf(),
            r == file_outcome(old(self)@, split_chars(name@, '/')),
            r is Ok ==> final(self)@ == with_dirs(
                old(self)@,
                split_chars(name@, '/').drop_last(),
                0o755u32,
            ).insert(split_chars(name@, '/'), node@),
            r is Err ==> final(self)@ == old(self)@,
    {
        let ghost pv = split_chars(name@, '/');
        let comps = split_str(name, '/');
        match self.status(&comps) {
            PathState::BadPath => Err(Error::InvalidPath),
            PathState::PrefixBlocked => Err(Error::NotADirectory),
            PathState::TargetDir => Err(Error::AlreadyExists),
            PathState::TargetOther => Err(Error::AlreadyExists),
            PathState::TargetMissing => {
                let ghost m0 = self@;
                self.make_parents(&comps, 0o755);
                proof {
                    lemma_with_dirs_props(m0, pv.drop_last(), 0o755u32);
                    assert(!self@.dom().contains(pv)) by {
                        if self@.dom().contains(pv) {
                            assert(m0.dom().contains(pv) || is_prefix(pv, pv.drop_last()));
                        }
                    }
                    if pv.len() > 1 {
                        assert(pv.drop_last().take(pv.drop_last().len() as int) =~= pv.drop_last());
                        assert(self@.dom().contains(pv.drop_last()));
                        assert(dir_like(self@[pv.drop_last()])) by {
                            if m0.dom().contains(pv.drop_last()) {
                                assert(pv.take(pv.len() - 1) =~= pv.drop_last());
                                assert(dir_like(m0[pv.drop_last()]));
                            }
                        }
                    }
                }
                let ghost m1 = self@;
                self.push_entry(comps, node);
                proof {
                    lemma_insert_wf(m1, pv, node@);
                }
                Ok(())
            },
        }
    }

    /// Places a symlink to `target`; parent directories must already exist.
    pub fn symlink(&mut self, name: &str, target: &str) -> (r: Result<(), Error>)
        requires
            old(self).wf(),
        ensures
            final(self).wf(),
            r == symlink_outcome(old(self)@, split_chars(name@, '/')),
            r is Ok ==> final(self)@ == old(self)@.insert(
                split_chars(name@, '/'),
                NodeV::Symlink { target: target@ },
            ),
            r is Err ==> final(self)@ == old(self)@,
    {
        let ghost pv = split_chars(name@, '/');
        let comps = split_str(name, '/');
        match self.status(&comps) {
            PathState::BadPath => Err(Error::InvalidPath),
            PathState::PrefixBlocked => Err(Error::NotADirectory),
            PathState::TargetDir => {
                proof {
                    lemma_wf_ancestors(self@, pv);
                }
                Err(Error::AlreadyExists)
            },
            PathState::TargetOther => {
                proof {
                    lemma_wf_ancestors(self@, pv);
                }
                Err(Error::AlreadyExists)
            },
            PathState::TargetMissing => {
                if !self.parents_all_present(&comps) {
                    return Err(Error::MissingParent);
                }
                let ghost m0 = self@;
                self.push_entry(comps, Node::Symlink { target: target.to_owned() });
                proof {
                    assert(pv.len() > 1 ==> pv.take(pv.len() - 1) =~= pv.drop_last());
                    lemma_insert_wf(m0, pv, NodeV::Symlink { target: target@ });
                }
                Ok(())
            },
        }
    }

    /// Attaches a realized mount onto a freshly created directory. This is
    /// the only operation that consumes a mount handle: until it runs, the
    /// handle's mount stays detached.
    pub fn mount(&mut self, name: &str, handle: MountHandle) -> (r: Result<(), Error>)
        requires
            old(self).wf(),
        ensures
            final(self).wf(),
            r == dir_outcome(old(self)@, split_chars(name@, '/'), false),
            r is Ok ==> final(self)@ == with_dirs(
                old(self)@,
                split_chars(name@, '/').drop_last(),
                0o755u32,
            ).insert(split_chars(name@, '/'), NodeV::Mount { plan: handle.plan@ }),
            r is Err ==> final(self)@ == old(self)@,
    {
        self.put_fresh_mount_node(name, Node::Mount { handle })
    }

    /// Binds the host directory tree at the absolute path `source`,
    /// recursively, onto a freshly created directory.
    pub fn bind_dir(&mut self, name: &str, source: &str) -> (r: Result<(), Error>)
        requires
            old(self).wf(),
        ensures
            final(self).wf(),
            r == dir_outcome(old(self)@, split_chars(name@, '/'), false),
            r is Ok ==> final(self)@ == with_dirs(
                old(self)@,
                split_chars(name@, '/').drop_last(),
                0o755u32,
            ).insert(split_chars(name@, '/'), NodeV::BindDir { source: source@ }),
            r is Err ==> final(self)@ == old(self)@,
    {
        self.put_fresh_mount_node(name, Node::BindDir { source: source.to_owned() })
    }

    /// Places `node` where a fresh directory was asked for.
    fn put_fresh_mount_node(&mut self, name: &str, node: Node) -> (r: Result<(), Error>)
        requires
            old(self).wf(),
            !(node@ is Dir),
        ensures
            final(self).wf(),
            r == dir_outcome(old(self)@, split_chars(name@, '/'), false),
            r is Ok ==> final(self)@ == with_dirs(
                old(self)@,
                split_chars(name@, '/').drop_last(),
                0o755u32,
            ).insert(split_chars(name@, '/'), node@),
            r is Err ==> final(self)@ == old(self)@,
    {
        let ghost pv = split_chars(name@, '/');
        let comps = split_str(name, '/');
        match self.status(&comps) {
            PathState::BadPath => Err(Error::InvalidPath),
            PathState::PrefixBlocked => Err(Error::NotADirectory),
            PathState::TargetDir => Err(Error::AlreadyExists),
            PathState::TargetOther => Err(Error::AlreadyExists),
            PathState::TargetMissing => {
                let ghost m0 = self@;
                self.make_parents(&comps, 0o755);
                proof {
                    lemma_with_dirs_props(m0, pv.drop_last(), 0o755u32);
                    assert(!self@.dom().contains(pv)) by {
                        if self@.dom().contains(pv) {
                            assert(m0.dom().contains(pv) || is_prefix(pv, pv.drop_last()));
                        }
                    }
                    if pv.len() > 1 {
                        assert(pv.drop_last().take(pv.drop_last().len() as int) =~= pv.drop_last());
                        assert(self@.dom().contains(pv.drop_last()));
                        assert(dir_like(self@[pv.drop_last()])) by {
                            if m0.dom().contains(pv.drop_last()) {
                                assert(pv.take(pv.len() - 1) =~= pv.drop_last());
                                assert(dir_like(m0[pv.drop_last()]));
                            }
                        }
                    }
                }
                let ghost m1 = self@;
                self.push_entry(comps, node);
                proof {
                    lemma_insert_wf(m1, pv, node@);
                }
                Ok(())
            },
        }
    }

    /// Looks a path up in the finished tree.
    pub fn get(&self, name: &str) -> (r: Option<&Node>)
        requires
            self.wf(),
        ensures
            r matches Some(n) ==> self@.dom().contains(split_chars(name@, '/')) && n@ == self@[
                split_chars(name@, '/')],
            r is None ==> !self@.dom().contains(split_chars(name@, '/')),
    {
        let comps = split_str(name, '/');
        match self.find_entry(&comps) {
            Some(i) => Some(&self.entries[i].1),
            None => None,
        }
    }
}

/// Creating a directory chain with `exist_ok` is idempotent: done once, a
/// second identical call succeeds and changes nothing.
pub proof fn lemma_create_dir_idempotent(
    m: Map<Seq<Seq<char>>, NodeV>,
    p: Seq<Seq<char>>,
    mode: u32,
)
    requires
        wf_map(m),
        dir_outcome(m, p, true) == Ok::<(), Error>(()),
    ensures
        dir_outcome(with_dirs(m, p, mode), p, true) == Ok::<(), Error>(()),
        with_dirs(with_dirs(m, p, mode), p, mode) == with_dirs(m, p, mode),
{
    let m1 = with_dirs(m, p, mode);
    lemma_with_dirs_props(m, p, mode);
    assert(p.take(p.len() as int) =~= p);
    assert(m1.dom().contains(p));
    assert(dir_like(m1[p])) by {
        if m.dom().contains(p) {
            assert(m1[p] == m[p]);
        } else {
            assert(is_prefix(p, p));
            assert(m1[p] == (NodeV::Dir { mode }));
        }
    }
    assert(prefix_dirs_ok(m1, p)) by {
        assert forall|k: int|
            0 < k < p.len() && m1.dom().contains(#[trigger] p.take(k)) implies dir_like(
            m1[p.take(k)],
        ) by {
            if m.dom().contains(p.take(k)) {
                assert(m1[p.take(k)] == m[p.take(k)]);
            } else {
                assert(is_prefix(p.take(k), p) && m1[p.take(k)] == (NodeV::Dir { mode }));
            }
        }
    }
    assert(dir_outcome(m1, p, true) == Ok::<(), Error>(()));
    lemma_with_dirs_all_present(m1, p, mode);
}

/// Every entry of a well-formed tree other than a root entry stands under
/// a parent that is present and is a directory.
pub proof fn lemma_parents_exist(b: &DirBuilder, p: Seq<Seq<char>>)
    requires
        b.wf(),
        b@.dom().contains(p),
        p.len() > 1,
    ensures
        b@.dom().contains(p.drop_last()),
        dir_like(b@[p.drop_last()]),
{
}

/// Clones a component vector.
#[verifier::loop_isolation(false)]
fn clone_components(v: &Vec<String>) -> (r: Vec<String>)
    ensures
        views_of(r@) == views_of(v@),
{
    let mut r: Vec<String> = Vec::new();
    let mut i: usize = 0;
    proof {
        assert(views_of(r@) =~= views_of(v@).take(0));
    }
    while i < v.len()
        invariant
            i <= v@.len(),
            views_of(r@) == views_of(v@).take(i as int),
        decreases v@.len() - i,
    {
        let c = v[i].clone();
        proof {
            assert(views_of(r@.push(c)) =~= views_of(r@).push(c@));
            assert(views_of(v@).take(i + 1) =~= views_of(v@).take(i as int).push(
                views_of(v@)[i as int],
            ));
        }
        r.push(c);
        i += 1;
    }
    proof {
        assert(views_of(v@).take(v@.len() as int) =~= views_of(v@));
    }
    r
}

/// Paths are equal component for component.
#[verifier::loop_isolation(false)]
fn path_eq(a: &Vec<String>, b: &Vec<String>) -> (r: bool)
    ensures
        r == (views_of(a@) == views_of(b@)),
{
    if a.len() != b.len() {
        proof {
            assert(views_of(a@).len() != views_of(b@).len());
        }
        return false;
    }
    let mut i: usize = 0;
    while i < a.len()
        invariant
            a@.len() == b@.len(),
            i <= a@.len(),
            forall|j: int| 0 <= j < i ==> views_of(a@)[j] == views_of(b@)[j],
        decreases a@.len() - i,
    {
        if !str_eq(a[i].as_str(), b[i].as_str()) {
            proof {
                assert(views_of(a@)[i as int] == a@[i as int]@);
                assert(views_of(b@)[i as int] == b@[i as int]@);
            }
            return false;
        }
        i += 1;
    }
    proof {
        assert(views_of(a@) =~= views_of(b@));
    }
    true
}

} // verus!
