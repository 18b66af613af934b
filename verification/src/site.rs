//! The document tree: named directories and pages addressed by paths.

use vstd::prelude::*;

use crate::location::{path_wf, spec_join, Fragment, InternalPath};
use crate::page::{render_page, spec_html_page, Page};
use crate::render::Context;
use crate::text::str_eq;

verus! {

/// A node of the document tree.
#[derive(Debug, PartialEq, Eq)]
pub enum Node {
    /// This node is a page.
    Page(Page),
    /// This node is a directory.
    Directory(Directory),
}

/// An ordered mapping from fragments to nodes.  Keys are unique; the order
/// is the insertion order, which fixes a deterministic traversal.
#[derive(Debug, PartialEq, Eq)]
pub struct Directory {
    pub contents: Vec<(Fragment, Node)>,
}

/// The whole site: one root directory.
#[derive(Debug, PartialEq, Eq)]
pub struct Site {
    /// The root directory of the site.
    pub root: Directory,
}

/// Why an insertion was refused.
#[derive(Debug, Clone, Copy, PartialEq, Eq)]
pub enum TreeError {
    /// The given path had no fragments.
    InsertAtRoot,
    /// The final fragment already held a node.
    Occupied,
    /// A non-final fragment held a page, which cannot have children.
    PageInPath,
}

impl TreeError {
    /// What the error means, in words.
    pub open spec fn spec_message(&self) -> Seq<char> {
        match self {
            TreeError::InsertAtRoot => "cannot insert at root"@,
            TreeError::Occupied => "cannot insert if already occupied"@,
            TreeError::PageInPath => "must be a directory"@,
        }
    }

    /// A human-readable description of the error.
    pub fn message(&self) -> (r: &'static str)
        ensures
            r@ == self.spec_message(),
    {
        match self {
            TreeError::InsertAtRoot => "cannot insert at root",
            TreeError::Occupied => "cannot insert if already occupied",
            TreeError::PageInPath => "must be a directory",
        }
    }
}

/// The node stored under `name`, scanning entries in order.
pub open spec fn lookup(es: Seq<(Fragment, Node)>, name: Seq<char>) -> Option<Node>
    decreases es.len(),
{
    if es.len() == 0 {
        None
    } else if es[0].0@ == name {
        Some(es[0].1)
    } else {
        lookup(es.skip(1), name)
    }
}

/// Resolves `path` against an entry list: walks one fragment at a time,
/// failing as soon as a fragment is missing or a page stands in the way.
/// The empty path resolves to nothing: the root itself is not addressable.
pub open spec fn entries_get(es: Seq<(Fragment, Node)>, path: Seq<Seq<char>>) -> Option<Node>
    decreases path.len(),
{
    if path.len() == 0 {
        None
    } else {
        match lookup(es, path[0]) {
            None => None,
            Some(node) => {
                if path.len() == 1 {
                    Some(node)
                } else {
                    match node {
                        Node::Page(_) => None,
                        Node::Directory(sub) => entries_get(sub.contents@, path.skip(1)),
                    }
                }
            },
        }
    }
}

/// Resolves `path` with root at directory `d`.
pub open spec fn spec_get(d: Directory, path: Seq<Seq<char>>) -> Option<Node> {
    entries_get(d.contents@, path)
}

/// Resolves `path` relative to a node: the empty path is the node itself,
/// a longer path descends into a directory.
pub open spec fn spec_get_node(n: Node, path: Seq<Seq<char>>) -> Option<Node> {
    if path.len() == 0 {
        Some(n)
    } else {
        match n {
            Node::Page(_) => None,
            Node::Directory(d) => entries_get(d.contents@, path),
        }
    }
}

/// Entry lists are well-formed: keys unique and non-empty, nodes
/// recursively well-formed.
pub open spec fn entries_wf(es: Seq<(Fragment, Node)>) -> bool
    decreases es,
{
    &&& forall|i: int, j: int|
        0 <= i < j < es.len() ==> (#[trigger] es[i].0)@ != (#[trigger] es[j].0)@
    &&& forall|i: int| 0 <= i < es.len() ==> (#[trigger] es[i].0)@.len() > 0
    &&& forall|i: int| 0 <= i < es.len() ==> node_wf(#[trigger] es[i].1)
}

/// A node is well-formed when every directory below it is.
pub open spec fn node_wf(n: Node) -> bool
    decreases n,
{
    match n {
        Node::Page(_) => true,
        Node::Directory(d) => entries_wf(d.contents@),
    }
}

/// A directory is well-formed when its entry list is.
pub open spec fn dir_wf(d: Directory) -> bool {
    entries_wf(d.contents@)
}

/// Whether inserting at `path` would succeed, and the exact error when it
/// would not: the root path is refused, a page on a non-final fragment is
/// refused, and an occupied final fragment is refused.
pub open spec fn entries_insert_check(es: Seq<(Fragment, Node)>, path: Seq<Seq<char>>) -> Result<
    (),
    TreeError,
>
    decreases path.len(),
{
    if path.len() == 0 {
        Err(TreeError::InsertAtRoot)
    } else {
        match lookup(es, path[0]) {
            None => Ok(()),
            Some(node) => {
                if path.len() == 1 {
                    Err(TreeError::Occupied)
                } else {
                    match node {
                        Node::Page(_) => Err(TreeError::PageInPath),
                        Node::Directory(sub) => entries_insert_check(sub.contents@, path.skip(1)),
                    }
                }
            },
        }
    }
}

/// How a successful insertion changes resolution: `path` and everything
/// under the inserted node resolve through that node, fresh intermediate
/// directories stand on every proper prefix, and every diverging path
/// resolves as before.
pub open spec fn inserted_at(
    old_es: Seq<(Fragment, Node)>,
    new_es: Seq<(Fragment, Node)>,
    path: Seq<Seq<char>>,
    node: Node,
) -> bool {
    &&& forall|q: Seq<Seq<char>>|
        path.is_prefix_of(q) ==> entries_get(new_es, q) == spec_get_node(
            node,
            q.skip(path.len() as int),
        )
    &&& forall|q: Seq<Seq<char>>|
        !path.is_prefix_of(q) && !q.is_prefix_of(path) ==> entries_get(new_es, q) == entries_get(
            old_es,
            q,
        )
    &&& forall|q: Seq<Seq<char>>|
        0 < q.len() < path.len() && q.is_prefix_of(path) ==> (entries_get(new_es, q) matches Some(
            Node::Directory(_),
        ))
}

impl From<Page> for Node {
    fn from(page: Page) -> (r: Self) {
        Node::Page(page)
    }
}

impl vstd::std_specs::convert::FromSpecImpl<Page> for Node {
    open spec fn obeys_from_spec() -> bool {
        true
    }

    open spec fn from_spec(page: Page) -> Self {
        Node::Page(page)
    }
}

impl From<Directory> for Node {
    fn from(dir: Directory) -> (r: Self) {
        Node::Directory(dir)
    }
}

impl vstd::std_specs::convert::FromSpecImpl<Directory> for Node {
    open spec fn obeys_from_spec() -> bool {
        true
    }

    open spec fn from_spec(dir: Directory) -> Self {
        Node::Directory(dir)
    }
}

impl Node {
    /// This node as an optional page; `None` when it is a directory.
    pub fn page(self) -> (r: Option<Page>)
        ensures
            match self {
                Node::Page(p) => r == Some(p),
                Node::Directory(_) => r is None,
            },
    {
        match self {
            Node::Page(file) => Some(file),
            Node::Directory(_) => None,
        }
    }

    /// This node as an optional directory; `None` when it is a page.
    pub fn dir(self) -> (r: Option<Directory>)
        ensures
            match self {
                Node::Page(_) => r is None,
                Node::Directory(d) => r == Some(d),
            },
    {
        match self {
            Node::Page(_) => None,
            Node::Directory(dir) => Some(dir),
        }
    }
}

/// The index of `name` among the entries, scanning in order.
fn find_entry(es: &Vec<(Fragment, Node)>, name: &Fragment) -> (r: Option<usize>)
    ensures
        match r {
            Some(j) => {
                &&& j < es@.len()
                &&& es@[j as int].0@ == name@
                &&& lookup(es@, name@) == Some(es@[j as int].1)
                &&& forall|k: int| 0 <= k < j ==> (#[trigger] es@[k].0)@ != name@
            },
            None => lookup(es@, name@) is None,
        },
{
    let n = es.len();
    let mut j: usize = 0;
    proof {
        assert(es@.skip(0) =~= es@);
    }
    while j < n
        invariant
            n == es@.len(),
            j <= n,
            lookup(es@, name@) == lookup(es@.skip(j as int), name@),
            forall|k: int| 0 <= k < j ==> (#[trigger] es@[k].0)@ != name@,
        decreases n - j,
    {
        proof {
            assert(es@.skip(j as int)[0] == es@[j as int]);
        }
        if str_eq(es[j].0.as_str(), name.as_str()) {
            return Some(j);
        }
        proof {
            assert(es@.skip(j as int).skip(1) =~= es@.skip(j + 1 as int));
        }
        j = j + 1;
    }
    proof {
        assert(es@.skip(n as int) =~= Seq::<(Fragment, Node)>::empty());
    }
    None
}

impl Directory {
    /// A directory with no entries.
    pub fn empty() -> (r: Directory)
        ensures
            r.contents@.len() == 0,
            dir_wf(r),
    {
        Directory { contents: Vec::new() }
    }

    /// Tries to resolve a path with root at this directory.  Returns a
    /// reference to the node exactly when the path resolves.
    pub fn get(&self, path: &InternalPath) -> (r: Option<&Node>)
        ensures
            match r {
                Some(n) => spec_get(*self, path@) == Some(*n),
                None => spec_get(*self, path@) is None,
            },
    {
        let n = path.fragments.len();
        if n == 0 {
            return None;
        }
        let mut cur: &Directory = self;
        let mut k: usize = 0;
        proof {
            assert(path@.skip(0) =~= path@);
        }
        while k < n
            invariant
                n == path@.len(),
                k < n,
                entries_get(self.contents@, path@) == entries_get(
                    cur.contents@,
                    path@.skip(k as int),
                ),
            decreases n - k,
        {
            proof {
                assert(path@.skip(k as int)[0] == path@[k as int]);
                assert(path@.skip(k as int).len() == n - k);
            }
            match find_entry(&cur.contents, &path.fragments[k]) {
                None => {
                    return None;
                },
                Some(j) => {
                    let node = &cur.contents[j].1;
                    if k == n - 1 {
                        return Some(node);
                    }
                    match node {
                        Node::Page(_) => {
                            return None;
                        },
                        Node::Directory(sub) => {
                            proof {
                                assert(path@.skip(k as int).skip(1) =~= path@.skip(k + 1 as int));
                            }
                            cur = sub;
                            k = k + 1;
                        },
                    }
                },
            }
        }
        // the loop either returns or descends; it never runs the position
        // past the final fragment
        proof {
            assert(false);
        }
        None
    }
}

/// A name misses every key exactly when lookup finds nothing.
proof fn lemma_lookup_none_iff(es: Seq<(Fragment, Node)>, name: Seq<char>)
    ensures
        (lookup(es, name) is None) <==> (forall|k: int|
            0 <= k < es.len() ==> (#[trigger] es[k].0)@ != name),
    decreases es.len(),
{
    if es.len() == 0 {
    } else {
        lemma_lookup_none_iff(es.skip(1), name);
        if lookup(es, name) is None {
            assert(es[0].0@ != name);
            assert forall|k: int| 0 <= k < es.len() implies (#[trigger] es[k].0)@ != name by {
                if k > 0 {
                    assert(es.skip(1)[k - 1] == es[k]);
                }
            }
        } else {
            if es[0].0@ == name {
                assert((es[0].0)@ == name);
            } else {
                assert(lookup(es.skip(1), name) is Some);
                let k0 = choose|k: int|
                    0 <= k < es.skip(1).len() && (#[trigger] es.skip(1)[k].0)@ == name;
                assert(es.skip(1)[k0] == es[k0 + 1]);
                assert((es[k0 + 1].0)@ == name);
            }
        }
    }
}

/// Lookup after appending one entry: earlier entries still win; the new
/// entry answers only for its own, previously absent, key.
proof fn lemma_lookup_push(es: Seq<(Fragment, Node)>, e: (Fragment, Node), name: Seq<char>)
    ensures
        lookup(es.push(e), name) == (if lookup(es, name) is Some {
            lookup(es, name)
        } else if name == e.0@ {
            Some(e.1)
        } else {
            None::<Node>
        }),
    decreases es.len(),
{
    let ps = es.push(e);
    if es.len() == 0 {
        assert(ps.len() == 1);
        assert(ps[0] == e);
        assert(lookup(es, name) is None);
        if e.0@ == name {
            assert(lookup(ps, name) == Some(e.1));
        } else {
            assert(ps.skip(1) =~= Seq::<(Fragment, Node)>::empty());
            assert(lookup(ps.skip(1), name) is None);
            assert(lookup(ps, name) is None);
        }
    } else {
        assert(ps[0] == es[0]);
        assert(ps.skip(1) =~= es.skip(1).push(e));
        lemma_lookup_push(es.skip(1), e, name);
        if es[0].0@ == name {
            assert(lookup(ps, name) == Some(es[0].1));
            assert(lookup(es, name) == Some(es[0].1));
        } else {
            assert(lookup(ps, name) == lookup(ps.skip(1), name));
            assert(lookup(es, name) == lookup(es.skip(1), name));
        }
    }
}

/// Lookup after replacing the first entry holding a key: that key now
/// finds the new node, every other name resolves as before.
proof fn lemma_lookup_update(
    es: Seq<(Fragment, Node)>,
    j: int,
    e: (Fragment, Node),
    name: Seq<char>,
)
    requires
        0 <= j < es.len(),
        es[j].0@ == e.0@,
        forall|k: int| 0 <= k < j ==> (#[trigger] es[k].0)@ != es[j].0@,
    ensures
        lookup(es.update(j, e), name) == (if name == e.0@ {
            Some(e.1)
        } else {
            lookup(es, name)
        }),
    decreases es.len(),
{
    if j == 0 {
        assert(es.update(0, e)[0] == e);
        assert(es.update(0, e).skip(1) =~= es.skip(1));
    } else {
        assert(es.update(j, e)[0] == es[0]);
        assert(es.update(j, e).skip(1) =~= es.skip(1).update(j - 1, e));
        assert(forall|k: int|
            0 <= k < es.skip(1).len() ==> #[trigger] es.skip(1)[k] == es[k + 1]);
        assert(es[0].0@ != es[j].0@);
        lemma_lookup_update(es.skip(1), j - 1, e, name);
    }
}

/// Dropping a shared head fragment keeps the prefix relation.
proof fn lemma_prefix_step(a: Seq<Seq<char>>, b: Seq<Seq<char>>)
    requires
        a.len() > 0,
        b.len() > 0,
        a[0] == b[0],
    ensures
        a.is_prefix_of(b) <==> a.skip(1).is_prefix_of(b.skip(1)),
{
    if a.is_prefix_of(b) {
        assert forall|x: int| 0 <= x < a.len() - 1 implies a.skip(1)[x] == b.skip(1).subrange(
            0,
            (a.len() - 1) as int,
        )[x] by {
            assert(a.skip(1)[x] == a[x + 1]);
            assert(a[x + 1] == b.subrange(0, a.len() as int)[x + 1]);
            assert(b.subrange(0, a.len() as int)[x + 1] == b[x + 1]);
            assert(b.skip(1).subrange(0, (a.len() - 1) as int)[x] == b.skip(1)[x]);
            assert(b.skip(1)[x] == b[x + 1]);
        }
        assert(a.skip(1) =~= b.skip(1).subrange(0, a.skip(1).len() as int));
    }
    if a.skip(1).is_prefix_of(b.skip(1)) {
        assert forall|x: int| 0 <= x < a.len() implies a[x] == b.subrange(0, a.len() as int)[x] by {
            assert(b.subrange(0, a.len() as int)[x] == b[x]);
            if x > 0 {
                assert(a.skip(1)[x - 1] == a[x]);
                assert(a.skip(1)[x - 1] == b.skip(1).subrange(0, (a.len() - 1) as int)[x - 1]);
                assert(b.skip(1).subrange(0, (a.len() - 1) as int)[x - 1] == b.skip(1)[x - 1]);
                assert(b.skip(1)[x - 1] == b[x]);
            }
        }
        assert(a =~= b.subrange(0, a.len() as int));
    }
}

/// The empty path is a prefix of every path.
proof fn lemma_empty_prefix(q: Seq<Seq<char>>)
    requires
        q.len() == 0,
    ensures
        forall|p: Seq<Seq<char>>| #[trigger] q.is_prefix_of(p),
{
    assert forall|p: Seq<Seq<char>>| #[trigger] q.is_prefix_of(p) by {
        assert(q =~= p.subrange(0, 0));
    }
}

/// The chain clauses: how a node `r`, sitting where the fragments
/// `path_v[k..]` lead to `node`, resolves every path below it.
pub open spec fn chain_resolves(r: Node, path_v: Seq<Seq<char>>, k: int, node: Node) -> bool {
    &&& forall|q: Seq<Seq<char>>|
        path_v.skip(k).is_prefix_of(q) ==> spec_get_node(r, q) == spec_get_node(
            node,
            q.skip(path_v.len() - k),
        )
    &&& forall|q: Seq<Seq<char>>|
        0 < q.len() < path_v.len() - k && q.is_prefix_of(path_v.skip(k)) ==> (spec_get_node(
            r,
            q,
        ) matches Some(Node::Directory(_)))
    &&& forall|q: Seq<Seq<char>>|
        !path_v.skip(k).is_prefix_of(q) && !q.is_prefix_of(path_v.skip(k)) ==> spec_get_node(
            r,
            q,
        ) is None
}

/// A single-entry directory extends a chain by one fragment.
proof fn lemma_chain_step(
    d: Directory,
    f: Fragment,
    rest: Node,
    path_v: Seq<Seq<char>>,
    k: int,
    node: Node,
)
    requires
        0 <= k < path_v.len(),
        path_wf(path_v),
        d.contents@ == seq![(f, rest)],
        f@ == path_v[k],
        node_wf(rest),
        k + 1 == path_v.len() ==> rest == node,
        k + 1 < path_v.len() ==> rest matches Node::Directory(_),
        chain_resolves(rest, path_v, k + 1, node),
    ensures
        node_wf(Node::Directory(d)),
        chain_resolves(Node::Directory(d), path_v, k, node),
{
    let r = Node::Directory(d);
    let suffix = path_v.skip(k);
    let suffix2 = path_v.skip(k + 1);
    let es = d.contents@;
    assert(suffix[0] == path_v[k]);
    assert(suffix.skip(1) =~= suffix2);
    assert(es[0] == (f, rest));
    assert(es.skip(1) =~= Seq::<(Fragment, Node)>::empty());
    assert(path_v[k].len() > 0);
    assert(entries_wf(es));
    assert(node_wf(r));
    assert forall|q: Seq<Seq<char>>| q.len() > 0 implies entries_get(es, q) == (if q[0] == f@ {
        if q.len() == 1 {
            Some(rest)
        } else {
            spec_get_node(rest, q.skip(1))
        }
    } else {
        None::<Node>
    }) by {
        if q[0] == f@ {
            assert(lookup(es, q[0]) == Some(rest));
        } else {
            assert(lookup(es.skip(1), q[0]) is None);
            assert(lookup(es, q[0]) is None);
        }
    }
    // the prefix clause
    assert forall|q: Seq<Seq<char>>| suffix.is_prefix_of(q) implies spec_get_node(r, q)
        == spec_get_node(node, q.skip(path_v.len() - k)) by {
        assert(q.len() >= suffix.len() >= 1);
        assert(q[0] == suffix[0]) by {
            assert(suffix[0] == q.subrange(0, suffix.len() as int)[0]);
        }
        lemma_prefix_step(suffix, q);
        assert(suffix2.is_prefix_of(q.skip(1)));
        if q.len() == 1 {
            assert(suffix.len() == 1);
            assert(rest == node);
            assert(q.skip(path_v.len() - k) =~= Seq::<Seq<char>>::empty());
            assert(spec_get_node(r, q) == Some(rest));
        } else {
            assert(spec_get_node(rest, q.skip(1)) == spec_get_node(
                node,
                q.skip(1).skip(path_v.len() - k - 1),
            ));
            assert(q.skip(1).skip(path_v.len() - k - 1) =~= q.skip(path_v.len() - k));
        }
    }
    // the fresh-directory clause
    assert forall|q: Seq<Seq<char>>|
        0 < q.len() < path_v.len() - k && q.is_prefix_of(suffix) implies spec_get_node(
        r,
        q,
    ) matches Some(Node::Directory(_)) by {
        assert(q[0] == suffix[0]) by {
            assert(q[0] == suffix.subrange(0, q.len() as int)[0]);
        }
        if q.len() == 1 {
            assert(spec_get_node(r, q) == Some(rest));
        } else {
            lemma_prefix_step(q, suffix);
            assert(q.skip(1).is_prefix_of(suffix2));
            assert(0 < q.skip(1).len() < path_v.len() - (k + 1));
        }
    }
    // the diverging clause
    assert forall|q: Seq<Seq<char>>|
        !suffix.is_prefix_of(q) && !q.is_prefix_of(suffix) implies spec_get_node(r, q) is None by {
        if q.len() == 0 {
            lemma_empty_prefix(q);
        } else {
            if q[0] == f@ {
                lemma_prefix_step(suffix, q);
                lemma_prefix_step(q, suffix);
                if q.len() == 1 {
                    assert(q =~= suffix.subrange(0, 1));
                    assert(q.is_prefix_of(suffix));
                } else {
                    assert(!suffix2.is_prefix_of(q.skip(1)));
                    assert(!q.skip(1).is_prefix_of(suffix2));
                }
            }
        }
    }
}

/// The first occurrence of a key answers the lookup.
proof fn lemma_lookup_at(es: Seq<(Fragment, Node)>, j: int)
    requires
        0 <= j < es.len(),
        forall|k: int| 0 <= k < j ==> (#[trigger] es[k].0)@ != es[j].0@,
    ensures
        lookup(es, es[j].0@) == Some(es[j].1),
    decreases j,
{
    if j == 0 {
    } else {
        assert(es[0].0@ != es[j].0@);
        assert(forall|k: int|
            0 <= k < es.skip(1).len() ==> #[trigger] es.skip(1)[k] == es[k + 1]);
        lemma_lookup_at(es.skip(1), j - 1);
    }
}

/// Builds the chain of fresh single-entry directories that carries `node`
/// down the remaining fragments of `path`; with no fragments left, the
/// chain is the node itself.
fn make_chain(path: &InternalPath, k: usize, node: Node) -> (r: Node)
    requires
        path.wf(),
        node_wf(node),
        k <= path@.len(),
    ensures
        node_wf(r),
        k == path@.len() ==> r == node,
        k < path@.len() ==> r matches Node::Directory(_),
        chain_resolves(r, path@, k as int, node),
    decreases path@.len() - k,
{
    if k == path.fragments.len() {
        proof {
            let suffix = path@.skip(k as int);
            assert(suffix =~= Seq::<Seq<char>>::empty());
            lemma_empty_prefix(suffix);
            assert forall|q: Seq<Seq<char>>| suffix.is_prefix_of(q) implies spec_get_node(
                node,
                q,
            ) == spec_get_node(node, q.skip(path@.len() - k)) by {
                assert(q.skip(0) =~= q);
            }
        }
        node
    } else {
        let f = path.fragments[k].clone();
        let rest = make_chain(path, k + 1, node);
        let mut contents: Vec<(Fragment, Node)> = Vec::new();
        contents.push((f, rest));
        let d = Directory { contents };
        proof {
            assert(d.contents@ =~= seq![(f, rest)]);
            lemma_chain_step(d, f, rest, path@, k as int, node);
        }
        Node::Directory(d)
    }
}

/// Appending one entry that carries a chain of fresh directories realizes
/// the insertion at the remaining fragments.
proof fn lemma_inserted_push(
    es: Seq<(Fragment, Node)>,
    f: Fragment,
    chain: Node,
    path_v: Seq<Seq<char>>,
    i: int,
    node: Node,
)
    requires
        entries_wf(es),
        path_wf(path_v),
        0 <= i < path_v.len(),
        f@ == path_v[i],
        lookup(es, path_v[i]) is None,
        node_wf(chain),
        i + 1 == path_v.len() ==> chain == node,
        i + 1 < path_v.len() ==> chain matches Node::Directory(_),
        chain_resolves(chain, path_v, i + 1, node),
    ensures
        entries_wf(es.push((f, chain))),
        inserted_at(es, es.push((f, chain)), path_v.skip(i), node),
{
    let new_es = es.push((f, chain));
    let suffix = path_v.skip(i);
    let suffix2 = path_v.skip(i + 1);
    assert(suffix[0] == path_v[i]);
    assert(suffix.skip(1) =~= suffix2);
    assert(suffix.len() == path_v.len() - i);
    lemma_lookup_none_iff(es, f@);
    // well-formedness of the extended entry list
    assert(entries_wf(new_es)) by {
        assert(forall|k: int| 0 <= k < es.len() ==> #[trigger] new_es[k] == es[k]);
        assert(new_es[es.len() as int] == (f, chain));
        assert(f@.len() > 0);
        assert forall|x: int, y: int|
            0 <= x < y < new_es.len() implies (#[trigger] new_es[x].0)@ != (
        #[trigger] new_es[y].0)@ by {
            if y == es.len() {
                assert((es[x].0)@ != f@);
            }
        }
    }
    // the prefix clause
    assert forall|q: Seq<Seq<char>>| suffix.is_prefix_of(q) implies entries_get(new_es, q)
        == spec_get_node(node, q.skip(suffix.len() as int)) by {
        assert(q.len() >= 1);
        assert(q[0] == suffix[0]) by {
            assert(suffix[0] == q.subrange(0, suffix.len() as int)[0]);
        }
        lemma_lookup_push(es, (f, chain), q[0]);
        assert(lookup(new_es, q[0]) == Some(chain));
        lemma_prefix_step(suffix, q);
        assert(suffix2.is_prefix_of(q.skip(1)));
        if q.len() == 1 {
            assert(suffix.len() == 1);
            assert(chain == node);
            assert(q.skip(suffix.len() as int) =~= Seq::<Seq<char>>::empty());
            assert(entries_get(new_es, q) == Some(chain));
        } else {
            assert(entries_get(new_es, q) == spec_get_node(chain, q.skip(1)));
            assert(spec_get_node(chain, q.skip(1)) == spec_get_node(
                node,
                q.skip(1).skip(path_v.len() - (i + 1)),
            ));
            assert(q.skip(1).skip(path_v.len() - (i + 1)) =~= q.skip(suffix.len() as int));
        }
    }
    // the diverging clause
    assert forall|q: Seq<Seq<char>>|
        !suffix.is_prefix_of(q) && !q.is_prefix_of(suffix) implies entries_get(new_es, q)
        == entries_get(es, q) by {
        if q.len() == 0 {
            lemma_empty_prefix(q);
        } else {
            lemma_lookup_push(es, (f, chain), q[0]);
            if q[0] == f@ {
                assert(lookup(es, q[0]) is None);
                assert(lookup(new_es, q[0]) == Some(chain));
                assert(entries_get(es, q) is None);
                lemma_prefix_step(suffix, q);
                lemma_prefix_step(q, suffix);
                if q.len() == 1 {
                    assert(q =~= suffix.subrange(0, 1));
                    assert(q.is_prefix_of(suffix));
                } else {
                    assert(!suffix2.is_prefix_of(q.skip(1)));
                    assert(!q.skip(1).is_prefix_of(suffix2));
                    assert(spec_get_node(chain, q.skip(1)) is None);
                    assert(entries_get(new_es, q) == spec_get_node(chain, q.skip(1)));
                }
            } else {
                assert(lookup(new_es, q[0]) == lookup(es, q[0]));
            }
        }
    }
    // the fresh-directory clause
    assert forall|q: Seq<Seq<char>>|
        0 < q.len() < suffix.len() && q.is_prefix_of(suffix) implies (entries_get(
        new_es,
        q,
    ) matches Some(Node::Directory(_))) by {
        assert(q[0] == suffix[0]) by {
            assert(q[0] == suffix.subrange(0, q.len() as int)[0]);
        }
        lemma_lookup_push(es, (f, chain), q[0]);
        assert(lookup(new_es, q[0]) == Some(chain));
        if q.len() == 1 {
            assert(entries_get(new_es, q) == Some(chain));
            assert(i + 1 < path_v.len());
        } else {
            lemma_prefix_step(q, suffix);
            assert(q.skip(1).is_prefix_of(suffix2));
            assert(0 < q.skip(1).len() < path_v.len() - (i + 1));
            assert(spec_get_node(chain, q.skip(1)) matches Some(Node::Directory(_)));
            assert(entries_get(new_es, q) == spec_get_node(chain, q.skip(1)));
        }
    }
}

/// Replacing a directory entry by its version with the insertion done
/// realizes the insertion one level up.
proof fn lemma_inserted_update(
    es: Seq<(Fragment, Node)>,
    j: int,
    sub_old: Directory,
    sub_new: Directory,
    path_v: Seq<Seq<char>>,
    i: int,
    node: Node,
)
    requires
        entries_wf(es),
        path_wf(path_v),
        0 <= i,
        i + 1 < path_v.len(),
        0 <= j < es.len(),
        es[j].0@ == path_v[i],
        forall|k: int| 0 <= k < j ==> (#[trigger] es[k].0)@ != path_v[i],
        es[j].1 == Node::Directory(sub_old),
        entries_wf(sub_new.contents@),
        inserted_at(sub_old.contents@, sub_new.contents@, path_v.skip(i + 1), node),
    ensures
        entries_wf(es.update(j, (es[j].0, Node::Directory(sub_new)))),
        inserted_at(es, es.update(j, (es[j].0, Node::Directory(sub_new))), path_v.skip(i), node),
{
    let e2 = (es[j].0, Node::Directory(sub_new));
    let new_es = es.update(j, e2);
    let suffix = path_v.skip(i);
    let suffix2 = path_v.skip(i + 1);
    let key = es[j].0@;
    assert(suffix[0] == path_v[i]);
    assert(suffix.skip(1) =~= suffix2);
    assert(suffix.len() == path_v.len() - i);
    assert(suffix.len() >= 2);
    lemma_lookup_at(es, j);
    assert(lookup(es, key) == Some(Node::Directory(sub_old)));
    // well-formedness of the updated entry list
    assert(entries_wf(new_es)) by {
        assert(forall|k: int| 0 <= k < es.len() ==> (#[trigger] new_es[k]).0 == es[k].0);
        assert(forall|k: int|
            0 <= k < es.len() && k != j ==> #[trigger] new_es[k] == es[k]);
        assert(node_wf(new_es[j].1));
    }
    // the prefix clause
    assert forall|q: Seq<Seq<char>>| suffix.is_prefix_of(q) implies entries_get(new_es, q)
        == spec_get_node(node, q.skip(suffix.len() as int)) by {
        assert(q[0] == suffix[0]) by {
            assert(suffix[0] == q.subrange(0, suffix.len() as int)[0]);
        }
        lemma_lookup_update(es, j, e2, q[0]);
        assert(lookup(new_es, q[0]) == Some(Node::Directory(sub_new)));
        lemma_prefix_step(suffix, q);
        assert(suffix2.is_prefix_of(q.skip(1)));
        assert(q.len() >= 2);
        assert(entries_get(new_es, q) == entries_get(sub_new.contents@, q.skip(1)));
        assert(entries_get(sub_new.contents@, q.skip(1)) == spec_get_node(
            node,
            q.skip(1).skip(suffix2.len() as int),
        ));
        assert(q.skip(1).skip(suffix2.len() as int) =~= q.skip(suffix.len() as int));
    }
    // the diverging clause
    assert forall|q: Seq<Seq<char>>|
        !suffix.is_prefix_of(q) && !q.is_prefix_of(suffix) implies entries_get(new_es, q)
        == entries_get(es, q) by {
        if q.len() == 0 {
            lemma_empty_prefix(q);
        } else {
            lemma_lookup_update(es, j, e2, q[0]);
            if q[0] == key {
                lemma_prefix_step(suffix, q);
                lemma_prefix_step(q, suffix);
                if q.len() == 1 {
                    assert(q =~= suffix.subrange(0, 1));
                    assert(q.is_prefix_of(suffix));
                } else {
                    assert(!suffix2.is_prefix_of(q.skip(1)));
                    assert(!q.skip(1).is_prefix_of(suffix2));
                    assert(entries_get(sub_new.contents@, q.skip(1)) == entries_get(
                        sub_old.contents@,
                        q.skip(1),
                    ));
                    assert(entries_get(new_es, q) == entries_get(sub_new.contents@, q.skip(1)));
                    assert(entries_get(es, q) == entries_get(sub_old.contents@, q.skip(1)));
                }
            } else {
                assert(lookup(new_es, q[0]) == lookup(es, q[0]));
            }
        }
    }
    // the fresh-directory clause
    assert forall|q: Seq<Seq<char>>|
        0 < q.len() < suffix.len() && q.is_prefix_of(suffix) implies (entries_get(
        new_es,
        q,
    ) matches Some(Node::Directory(_))) by {
        assert(q[0] == suffix[0]) by {
            assert(q[0] == suffix.subrange(0, q.len() as int)[0]);
        }
        lemma_lookup_update(es, j, e2, q[0]);
        assert(lookup(new_es, q[0]) == Some(Node::Directory(sub_new)));
        if q.len() == 1 {
            assert(entries_get(new_es, q) == Some(Node::Directory(sub_new)));
        } else {
            lemma_prefix_step(q, suffix);
            assert(q.skip(1).is_prefix_of(suffix2));
            assert(0 < q.skip(1).len() < suffix2.len());
            assert(entries_get(new_es, q) == entries_get(sub_new.contents@, q.skip(1)));
            assert(entries_get(sub_new.contents@, q.skip(1)) matches Some(Node::Directory(_)));
        }
    }
}

/// Whether inserting at the remaining fragments would succeed, read-only.
fn check_path(d: &Directory, path: &InternalPath, i: usize) -> (r: Result<(), TreeError>)
    requires
        i < path@.len(),
    ensures
        r == entries_insert_check(d.contents@, path@.skip(i as int)),
    decreases path@.len() - i,
{
    proof {
        assert(path@.skip(i as int)[0] == path@[i as int]);
        assert(path@.skip(i as int).len() == path@.len() - i);
    }
    let f = &path.fragments[i];
    match find_entry(&d.contents, f) {
        None => Ok(()),
        Some(j) => {
            if i == path.fragments.len() - 1 {
                Err(TreeError::Occupied)
            } else {
                match &d.contents[j].1 {
                    Node::Page(_) => Err(TreeError::PageInPath),
                    Node::Directory(sub) => {
                        proof {
                            assert(path@.skip(i as int).skip(1) =~= path@.skip(i + 1 as int));
                        }
                        check_path(sub, path, i + 1)
                    },
                }
            }
        },
    }
}

/// Inserts `node` along a path known to be free, creating intermediate
/// directories as needed.
fn insert_free(d: &mut Directory, path: &InternalPath, i: usize, node: Node)
    requires
        dir_wf(*old(d)),
        path.wf(),
        node_wf(node),
        i < path@.len(),
        entries_insert_check(old(d).contents@, path@.skip(i as int)) is Ok,
    ensures
        dir_wf(*final(d)),
        inserted_at(old(d).contents@, final(d).contents@, path@.skip(i as int), node),
    decreases path@.len() - i,
{
    let ghost suffix = path@.skip(i as int);
    let n = path.fragments.len();
    proof {
        assert(i < n);
        assert(suffix[0] == path@[i as int]);
        assert(suffix.len() == path@.len() - i);
        assert(suffix.skip(1) =~= path@.skip(i + 1 as int));
    }
    let f = &path.fragments[i];
    match find_entry(&d.contents, f) {
        None => {
            let chain = make_chain(path, i + 1, node);
            let f2 = f.clone();
            proof {
                lemma_inserted_push(d.contents@, f2, chain, path@, i as int, node);
            }
            d.contents.push((f2, chain));
        },
        Some(j) => {
            if i == path.fragments.len() - 1 {
                // the check pass rules an occupied final fragment out
                proof {
                    assert(false);
                }
                return ;
            }
            let ghost old_entry = old(d).contents@[j as int];
            let (f2, sub_node) = d.contents.remove(j);
            match sub_node {
                Node::Page(p) => {
                    // the check pass rules a page on the way out
                    proof {
                        assert(false);
                    }
                    d.contents.insert(j, (f2, Node::Page(p)));
                },
                Node::Directory(mut sub) => {
                    let ghost sub_old = sub;
                    proof {
                        assert(node_wf(old(d).contents@[j as int].1));
                        assert(entries_insert_check(sub.contents@, path@.skip(i + 1 as int))
                            is Ok);
                    }
                    insert_free(&mut sub, path, i + 1, node);
                    proof {
                        assert(dir_wf(sub));
                    }
                    d.contents.insert(j, (f2, Node::Directory(sub)));
                    proof {
                        lemma_inserted_update(
                            old(d).contents@,
                            j as int,
                            sub_old,
                            sub,
                            path@,
                            i as int,
                            node,
                        );
                        assert(d.contents@ =~= old(d).contents@.update(
                            j as int,
                            (old(d).contents@[j as int].0, Node::Directory(sub)),
                        ));
                    }
                },
            }
        },
    }
}

impl Directory {
    /// Tries to insert a node at the given path with the root at this
    /// directory.  Intermediate directories are created as needed; the
    /// root path, a page on a non-final fragment, and an occupied final
    /// fragment are refused, each with its own error, and then nothing
    /// changes.
    pub fn insert(&mut self, path: &InternalPath, node: Node) -> (r: Result<(), TreeError>)
        requires
            dir_wf(*old(self)),
            path.wf(),
            node_wf(node),
        ensures
            dir_wf(*final(self)),
            r is Ok <==> entries_insert_check(old(self).contents@, path@) is Ok,
            r matches Err(e) ==> Err::<(), TreeError>(e) == entries_insert_check(
                old(self).contents@,
                path@,
            ),
            r is Ok ==> inserted_at(old(self).contents@, final(self).contents@, path@, node),
            r is Ok ==> spec_get(*final(self), path@) == Some(node),
            r is Err ==> *final(self) == *old(self),
    {
        if path.fragments.len() == 0 {
            return Err(TreeError::InsertAtRoot);
        }
        let c = check_path(self, path, 0);
        proof {
            assert(path@.skip(0) =~= path@);
            assert(c == entries_insert_check(old(self).contents@, path@));
        }
        match c {
            Err(e) => Err(e),
            Ok(()) => {
                insert_free(self, path, 0, node);
                proof {
                    assert(path@.is_prefix_of(path@)) by {
                        assert(path@ =~= path@.subrange(0, path@.len() as int));
                    }
                    assert(path@.skip(path@.len() as int) =~= Seq::<Seq<char>>::empty());
                    assert(spec_get_node(node, path@.skip(path@.len() as int)) == Some(node));
                }
                Ok(())
            },
        }
    }
}

/// Inserting a node and then getting the same path yields that node back:
/// the first clause of `inserted_at` instantiated at the inserted path.
pub proof fn lemma_insert_then_get(
    old_es: Seq<(Fragment, Node)>,
    new_es: Seq<(Fragment, Node)>,
    path: Seq<Seq<char>>,
    node: Node,
)
    requires
        path.len() > 0,
        inserted_at(old_es, new_es, path, node),
    ensures
        entries_get(new_es, path) == Some(node),
{
    assert(path.is_prefix_of(path)) by {
        assert(path =~= path.subrange(0, path.len() as int));
    }
    assert(path.skip(path.len() as int) =~= Seq::<Seq<char>>::empty());
    assert(spec_get_node(node, path.skip(path.len() as int)) == Some(node));
}

/// On an empty directory every path resolves to nothing: a never-inserted
/// path is not found.
pub proof fn lemma_get_empty(es: Seq<(Fragment, Node)>, q: Seq<Seq<char>>)
    requires
        es.len() == 0,
    ensures
        entries_get(es, q) is None,
{
    if q.len() > 0 {
        assert(lookup(es, q[0]) is None);
    }
}

/// Inserting at a path that already resolves to a node always fails with
/// `Occupied`: together with the unchanged-on-error clause of `insert`,
/// an occupied slot is never silently overwritten.
pub proof fn lemma_insert_occupied_fails(es: Seq<(Fragment, Node)>, path: Seq<Seq<char>>)
    requires
        entries_get(es, path) is Some,
    ensures
        entries_insert_check(es, path) == Err::<(), TreeError>(TreeError::Occupied),
    decreases path.len(),
{
    if path.len() > 1 {
        match lookup(es, path[0]) {
            Some(node) => {
                match node {
                    Node::Directory(sub) => {
                        lemma_insert_occupied_fails(sub.contents@, path.skip(1));
                    },
                    Node::Page(_) => {},
                }
            },
            None => {},
        }
    }
}

/// Every page below an entry list, with the tree path it sits at, in
/// traversal order: entries in insertion order, directories walked depth
/// first.
pub open spec fn spec_pages_entries(es: Seq<(Fragment, Node)>, prefix: Seq<Seq<char>>) -> Seq<
    (Seq<Seq<char>>, Page),
>
    decreases es,
{
    if es.len() == 0 {
        Seq::empty()
    } else {
        spec_pages_node(es[0].1, prefix.push(es[0].0@)) + spec_pages_entries(es.skip(1), prefix)
    }
}

/// The pages below one node: a page is itself, a directory contributes its
/// entries.
pub open spec fn spec_pages_node(n: Node, at: Seq<Seq<char>>) -> Seq<(Seq<Seq<char>>, Page)>
    decreases n,
{
    match n {
        Node::Page(p) => seq![(at, p)],
        Node::Directory(d) => spec_pages_entries(d.contents@, at),
    }
}

/// Well-formedness passes to the tail of an entry list.
proof fn lemma_wf_skip(es: Seq<(Fragment, Node)>)
    requires
        entries_wf(es),
        es.len() > 0,
    ensures
        entries_wf(es.skip(1)),
{
    let tail = es.skip(1);
    assert(forall|k: int| 0 <= k < tail.len() ==> #[trigger] tail[k] == es[k + 1]);
    assert forall|x: int, y: int|
        0 <= x < y < tail.len() implies (#[trigger] tail[x].0)@ != (#[trigger] tail[y].0)@ by {
        assert((es[x + 1].0)@ != (es[y + 1].0)@);
    }
    assert forall|x: int| 0 <= x < tail.len() implies (#[trigger] tail[x].0)@.len() > 0 by {
        assert((es[x + 1].0)@.len() > 0);
    }
    assert forall|x: int| 0 <= x < tail.len() implies node_wf(#[trigger] tail[x].1) by {
        assert(node_wf(es[x + 1].1));
    }
}

/// Every pair the traversal yields resolves: its path extends the prefix
/// by at least one fragment, and looking the remainder up from the entry
/// list finds exactly that page.
pub proof fn lemma_traversal_sound(es: Seq<(Fragment, Node)>, prefix: Seq<Seq<char>>, i: int)
    requires
        entries_wf(es),
        0 <= i < spec_pages_entries(es, prefix).len(),
    ensures
        prefix.len() < spec_pages_entries(es, prefix)[i].0.len(),
        prefix.is_prefix_of(spec_pages_entries(es, prefix)[i].0),
        entries_get(
            es,
            spec_pages_entries(es, prefix)[i].0.skip(prefix.len() as int),
        ) == Some(Node::Page(spec_pages_entries(es, prefix)[i].1)),
    decreases es,
{
    let key = es[0].0@;
    let head = spec_pages_node(es[0].1, prefix.push(key));
    let tail = spec_pages_entries(es.skip(1), prefix);
    let pair = spec_pages_entries(es, prefix)[i];
    assert(spec_pages_entries(es, prefix) == head + tail);
    assert(lookup(es, key) == Some(es[0].1));
    if i < head.len() {
        assert(pair == head[i]);
        match es[0].1 {
            Node::Page(p) => {
                assert(pair == (prefix.push(key), p));
                let q = pair.0.skip(prefix.len() as int);
                assert(q =~= seq![key]);
                assert(prefix =~= pair.0.subrange(0, prefix.len() as int));
                assert(entries_get(es, q) == Some(Node::Page(p)));
            },
            Node::Directory(d0) => {
                assert(node_wf(es[0].1));
                lemma_traversal_sound(d0.contents@, prefix.push(key), i);
                assert(pair == spec_pages_entries(d0.contents@, prefix.push(key))[i]);
                let q = pair.0.skip(prefix.len() as int);
                assert(prefix.push(key).is_prefix_of(pair.0));
                assert(pair.0[prefix.len() as int] == prefix.push(key)[prefix.len() as int])
                    by {
                    assert(prefix.push(key) =~= pair.0.subrange(
                        0,
                        (prefix.len() + 1) as int,
                    ));
                }
                assert(q[0] == key);
                assert(q.len() > 1);
                assert(q.skip(1) =~= pair.0.skip((prefix.len() + 1) as int));
                assert(entries_get(es, q) == entries_get(d0.contents@, q.skip(1)));
                assert(prefix.push(key) =~= pair.0.subrange(0, (prefix.len() + 1) as int));
                assert forall|x: int|
                    0 <= x < prefix.len() implies prefix[x] == (#[trigger] pair.0[x]) by {
                    assert(prefix.push(key)[x] == prefix[x]);
                    assert(prefix.push(key)[x] == pair.0.subrange(
                        0,
                        (prefix.len() + 1) as int,
                    )[x]);
                    assert(pair.0.subrange(0, (prefix.len() + 1) as int)[x] == pair.0[x]);
                }
                assert(prefix =~= pair.0.subrange(0, prefix.len() as int));
            },
        }
    } else {
        lemma_wf_skip(es);
        lemma_traversal_sound(es.skip(1), prefix, i - head.len());
        assert(pair == tail[i - head.len()]);
        let q = pair.0.skip(prefix.len() as int);
        assert(entries_get(es.skip(1), q) == Some(Node::Page(pair.1)));
        assert(q.len() > 0);
        // the remainder starts with one of the tail's keys, never with the
        // head's key
        assert(lookup(es.skip(1), q[0]) is Some);
        lemma_lookup_none_iff(es.skip(1), q[0]);
        let k0 = choose|k: int|
            0 <= k < es.skip(1).len() && (#[trigger] es.skip(1)[k].0)@ == q[0];
        assert(es.skip(1)[k0] == es[k0 + 1]);
        assert((es[k0 + 1].0)@ == q[0]);
        assert((es[0].0)@ != (es[k0 + 1].0)@);
        assert(lookup(es, q[0]) == lookup(es.skip(1), q[0]));
        assert(entries_get(es, q) == entries_get(es.skip(1), q));
    }
}

/// A found name has an entry holding it.
proof fn lemma_lookup_witness(es: Seq<(Fragment, Node)>, name: Seq<char>)
    requires
        lookup(es, name) is Some,
    ensures
        exists|j: int|
            0 <= j < es.len() && (#[trigger] es[j].0)@ == name && lookup(es, name) == Some(
                es[j].1,
            ),
    decreases es.len(),
{
    if es[0].0@ == name {
        assert((es[0].0)@ == name && lookup(es, name) == Some(es[0].1));
    } else {
        lemma_lookup_witness(es.skip(1), name);
        let k = choose|k: int|
            0 <= k < es.skip(1).len() && (#[trigger] es.skip(1)[k].0)@ == name && lookup(
                es.skip(1),
                name,
            ) == Some(es.skip(1)[k].1);
        assert(es.skip(1)[k] == es[k + 1]);
        assert((es[k + 1].0)@ == name && lookup(es, name) == Some(es[k + 1].1));
    }
}

/// What one entry's node contributes to the traversal is contained in the
/// whole entry list's traversal.
proof fn lemma_pages_node_contained(
    es: Seq<(Fragment, Node)>,
    prefix: Seq<Seq<char>>,
    j: int,
    pair: (Seq<Seq<char>>, Page),
)
    requires
        0 <= j < es.len(),
        spec_pages_node(es[j].1, prefix.push(es[j].0@)).contains(pair),
    ensures
        spec_pages_entries(es, prefix).contains(pair),
    decreases es.len(),
{
    let head = spec_pages_node(es[0].1, prefix.push(es[0].0@));
    let tail = spec_pages_entries(es.skip(1), prefix);
    assert(spec_pages_entries(es, prefix) == head + tail);
    if j == 0 {
        let i = choose|i: int| 0 <= i < head.len() && head[i] == pair;
        assert((head + tail)[i] == pair);
    } else {
        assert(es.skip(1)[j - 1] == es[j]);
        lemma_pages_node_contained(es.skip(1), prefix, j - 1, pair);
        let i = choose|i: int| 0 <= i < tail.len() && tail[i] == pair;
        assert((head + tail)[head.len() + i] == pair);
    }
}

/// Every page the tree can resolve is yielded by the traversal: resolving
/// `q` to a page means the traversal, prefixed with any `prefix`, contains
/// the pair of `prefix + q` and that page.
pub proof fn lemma_traversal_complete(
    es: Seq<(Fragment, Node)>,
    prefix: Seq<Seq<char>>,
    q: Seq<Seq<char>>,
    p: Page,
)
    requires
        entries_wf(es),
        entries_get(es, q) == Some(Node::Page(p)),
    ensures
        spec_pages_entries(es, prefix).contains((prefix + q, p)),
    decreases q.len(),
{
    assert(q.len() > 0);
    lemma_lookup_witness(es, q[0]);
    let j = choose|j: int|
        0 <= j < es.len() && (#[trigger] es[j].0)@ == q[0] && lookup(es, q[0]) == Some(es[j].1);
    let at = prefix.push(es[j].0@);
    if q.len() == 1 {
        assert(es[j].1 == Node::Page(p));
        assert(spec_pages_node(es[j].1, at)[0] == (at, p));
        assert(at =~= prefix + q);
        lemma_pages_node_contained(es, prefix, j, (prefix + q, p));
    } else {
        match lookup(es, q[0]) {
            Some(node) => {
                match node {
                    Node::Directory(sub) => {
                        assert(node_wf(es[j].1));
                        lemma_traversal_complete(sub.contents@, at, q.skip(1), p);
                        assert(at + q.skip(1) =~= prefix + q);
                        assert(spec_pages_node(es[j].1, at).contains((prefix + q, p)));
                        lemma_pages_node_contained(es, prefix, j, (prefix + q, p));
                    },
                    Node::Page(_) => {
                        assert(false);
                    },
                }
            },
            None => {
                assert(false);
            },
        }
    }
}

/// The mathematical content of a collected page list.
pub open spec fn pairs_view(s: Seq<(InternalPath, &Page)>) -> Seq<(Seq<Seq<char>>, Page)> {
    Seq::new(s.len(), |i: int| (s[i].0@, *s[i].1))
}

/// Collects every page below `d`, with `prefix` prepended to its path.
fn collect_pages<'a>(
    d: &'a Directory,
    prefix: &InternalPath,
    out: &mut Vec<(InternalPath, &'a Page)>,
)
    ensures
        pairs_view(final(out)@) == pairs_view(old(out)@) + spec_pages_entries(
            d.contents@,
            prefix@,
        ),
    decreases d,
{
    let ghost out0 = old(out)@;
    let ghost es = d.contents@;
    let n = d.contents.len();
    let mut i: usize = 0;
    proof {
        assert(es.skip(0) =~= es);
        assert(pairs_view(out@) + spec_pages_entries(es, prefix@) =~= pairs_view(out0)
            + spec_pages_entries(es, prefix@));
    }
    while i < n
        invariant
            n == es.len(),
            es == d.contents@,
            i <= n,
            pairs_view(out@) + spec_pages_entries(es.skip(i as int), prefix@) =~= pairs_view(out0)
                + spec_pages_entries(es, prefix@),
        decreases n - i,
    {
        proof {
            assert(es.skip(i as int)[0] == es[i as int]);
            assert(es.skip(i as int).skip(1) =~= es.skip(i + 1 as int));
            assert(spec_pages_entries(es.skip(i as int), prefix@) == spec_pages_node(
                es[i as int].1,
                prefix@.push(es[i as int].0@),
            ) + spec_pages_entries(es.skip(i + 1 as int), prefix@));
        }
        let entry = &d.contents[i];
        let mut at = prefix.clone();
        at.push(entry.0.clone());
        proof {
            assert(at@ =~= prefix@.push(es[i as int].0@));
        }
        match &entry.1 {
            Node::Page(p) => {
                let ghost before = out@;
                out.push((at, p));
                proof {
                    assert(pairs_view(out@) =~= pairs_view(before) + spec_pages_node(
                        es[i as int].1,
                        prefix@.push(es[i as int].0@),
                    ));
                    assert(pairs_view(out@) + spec_pages_entries(es.skip(i + 1 as int), prefix@)
                        =~= pairs_view(before) + spec_pages_entries(es.skip(i as int), prefix@));
                }
            },
            Node::Directory(sub) => {
                proof {
                    assert(decreases_to!(d => sub));
                }
                let ghost before = out@;
                collect_pages(sub, &at, out);
                proof {
                    assert(pairs_view(out@) + spec_pages_entries(es.skip(i + 1 as int), prefix@)
                        =~= pairs_view(before) + spec_pages_entries(es.skip(i as int), prefix@));
                }
            },
        }
        i = i + 1;
    }
    proof {
        assert(es.skip(n as int) =~= Seq::<(Fragment, Node)>::empty());
        assert(spec_pages_entries(es.skip(n as int), prefix@) =~= Seq::<(
            Seq<Seq<char>>,
            Page,
        )>::empty());
        assert(pairs_view(out@) =~= pairs_view(out@) + Seq::<(Seq<Seq<char>>, Page)>::empty());
        assert(pairs_view(out@) =~= pairs_view(out0) + spec_pages_entries(es, prefix@));
    }
}

impl Directory {
    /// Every (path, page) pair reachable from this directory, depth first,
    /// siblings in insertion order.
    pub fn pages<'a>(&'a self) -> (r: Vec<(InternalPath, &'a Page)>)
        ensures
            pairs_view(r@) == spec_pages_entries(self.contents@, Seq::<Seq<char>>::empty()),
    {
        let mut out: Vec<(InternalPath, &Page)> = Vec::new();
        let root = InternalPath::root();
        collect_pages(self, &root, &mut out);
        proof {
            assert(root@ =~= Seq::<Seq<char>>::empty());
            assert(pairs_view(Seq::<(InternalPath, &Page)>::empty()) =~= Seq::<(
                Seq<Seq<char>>,
                Page,
            )>::empty());
            assert(pairs_view(out@) =~= spec_pages_entries(self.contents@, root@));
        }
        out
    }
}

/// Every page of a site with the tree path it sits at, in traversal order.
pub open spec fn site_pages(s: Site) -> Seq<(Seq<Seq<char>>, Page)> {
    spec_pages_entries(s.root.contents@, Seq::<Seq<char>>::empty())
}

impl Site {
    /// Renders every page of the site against its own location: for each
    /// page, in traversal order, the relative file path its fragments join
    /// to, and the page's full HTML rendered with the context seeded by
    /// that page's own path.
    pub fn render_pages(&self) -> (r: Vec<(String, String)>)
        ensures
            r@.len() == site_pages(*self).len(),
            forall|i: int|
                0 <= i < r@.len() ==> (#[trigger] r@[i]).0@ == spec_join(site_pages(*self)[i].0)
                    && r@[i].1@ == spec_html_page(site_pages(*self)[i].1, site_pages(*self)[i].0),
    {
        let ps = self.root.pages();
        let mut out: Vec<(String, String)> = Vec::new();
        let n = ps.len();
        let mut i: usize = 0;
        while i < n
            invariant
                n == ps@.len(),
                i <= n,
                pairs_view(ps@) == site_pages(*self),
                out@.len() == i,
                forall|j: int|
                    0 <= j < i ==> (#[trigger] out@[j]).0@ == spec_join(site_pages(*self)[j].0)
                        && out@[j].1@ == spec_html_page(
                        site_pages(*self)[j].1,
                        site_pages(*self)[j].0,
                    ),
            decreases n - i,
        {
            let entry = &ps[i];
            proof {
                assert(site_pages(*self)[i as int] == (ps@[i as int].0@, *ps@[i as int].1));
            }
            let fs_path = entry.0.to_fs_path();
            let ctx = Context::new(entry.0.clone());
            let html = render_page(entry.1, &ctx);
            out.push((fs_path, html));
            i = i + 1;
        }
        out
    }
}

} // verus!
