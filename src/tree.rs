//! Resolved trees as maps from file paths to content-addressed values, and
//! the builder that edits them.
use vstd::prelude::*;
use crate::repo_path::RepoPathBuf;
use crate::repo_path::valid_path;
use crate::repo_path::under;
use crate::repo_path::strictly_under;

verus! {

/// The kind of a non-tree entry.
#[derive(Clone, Copy, Debug, PartialEq, Eq, Structural)]
pub enum EntryKind {
    File,
    ExecutableFile,
    Symlink,
    GitSubmodule,
}

/// A non-tree value: its kind and the id of the content it points at.
#[derive(Debug, PartialEq, Eq)]
pub struct TreeValue {
    pub kind: EntryKind,
    pub id: Vec<u8>,
}

/// What a tree value stands for: its kind and its content id.
pub type ValueView = (EntryKind, Seq<u8>);

impl View for TreeValue {
    type V = ValueView;

    open spec fn view(&self) -> ValueView {
        (self.kind, self.id@)
    }
}

/// Compares two byte strings.
pub fn bytes_equal(a: &Vec<u8>, b: &Vec<u8>) -> (r: bool)
    ensures
        r == (a@ == b@),
{
    if a.len() != b.len() {
        return false;
    }
    let mut i: usize = 0;
    while i < a.len()
        invariant
            a@.len() == b@.len(),
            i <= a@.len(),
            forall|j: int| 0 <= j < i ==> a@[j] == b@[j],
        decreases a@.len() - i,
    {
        if a[i] != b[i] {
            return false;
        }
        i = i + 1;
    }
    assert(a@ =~= b@);
    true
}

/// A copy of a byte string.
pub fn copy_bytes(a: &Vec<u8>) -> (r: Vec<u8>)
    ensures
        r@ == a@,
{
    let mut r: Vec<u8> = Vec::with_capacity(a.len());
    let mut i: usize = 0;
    while i < a.len()
        invariant
            i <= a@.len(),
            r@ == a@.subrange(0, i as int),
        decreases a@.len() - i,
    {
        r.push(a[i]);
        i = i + 1;
    }
    assert(r@ =~= a@);
    r
}

impl TreeValue {
    pub fn new(kind: EntryKind, id: Vec<u8>) -> (r: TreeValue)
        ensures
            r@ == (kind, id@),
    {
        TreeValue { kind, id }
    }

    /// A regular file with the given content id.
    pub fn file(id: Vec<u8>) -> (r: TreeValue)
        ensures
            r@ == (EntryKind::File, id@),
    {
        TreeValue { kind: EntryKind::File, id }
    }

    pub fn same_as(&self, other: &TreeValue) -> (r: bool)
        ensures
            r == (self@ == other@),
    {
        self.kind == other.kind && bytes_equal(&self.id, &other.id)
    }

    pub fn copy(&self) -> (r: TreeValue)
        ensures
            r@ == self@,
    {
        TreeValue { kind: self.kind, id: copy_bytes(&self.id) }
    }
}

impl Clone for TreeValue {
    fn clone(&self) -> (r: Self)
        ensures
            r@ == self@,
    {
        self.copy()
    }
}

/// A tree's map is well formed when every key is a valid non-root path and
/// no key lies below another, since a file cannot hold entries.
pub open spec fn well_formed_map(m: Map<Seq<char>, ValueView>) -> bool {
    &&& forall|p: Seq<char>| #[trigger] m.dom().contains(p) ==> valid_path(p) && p.len() > 0
    &&& forall|p: Seq<char>, q: Seq<char>|
        #[trigger] m.dom().contains(p) && #[trigger] m.dom().contains(q) ==> !strictly_under(p, q)
}

/// The entries in their abstract form.
pub open spec fn entry_views(s: Seq<(RepoPathBuf, TreeValue)>) -> Seq<(Seq<char>, ValueView)> {
    s.map_values(|e: (RepoPathBuf, TreeValue)| (e.0@, e.1@))
}

pub open spec fn keys_unique(s: Seq<(Seq<char>, ValueView)>) -> bool {
    forall|i: int, j: int|
        0 <= i < s.len() && 0 <= j < s.len() && i != j ==> #[trigger] s[i].0 != #[trigger] s[j].0
}

pub open spec fn has_key(s: Seq<(Seq<char>, ValueView)>, p: Seq<char>) -> bool {
    exists|i: int| 0 <= i < s.len() && #[trigger] s[i].0 == p
}

/// The map that a list of entries with distinct paths stands for.
pub open spec fn map_of(s: Seq<(Seq<char>, ValueView)>) -> Map<Seq<char>, ValueView> {
    Map::new(
        |p: Seq<char>| has_key(s, p),
        |p: Seq<char>| s[choose|i: int| 0 <= i < s.len() && #[trigger] s[i].0 == p].1,
    )
}

pub proof fn lemma_map_of_index(s: Seq<(Seq<char>, ValueView)>, i: int)
    requires
        keys_unique(s),
        0 <= i < s.len(),
    ensures
        map_of(s).dom().contains(s[i].0),
        map_of(s)[s[i].0] == s[i].1,
{
    assert(has_key(s, s[i].0));
    let j = choose|j: int| 0 <= j < s.len() && #[trigger] s[j].0 == s[i].0;
    assert(j == i);
}

pub proof fn lemma_map_of_push(s: Seq<(Seq<char>, ValueView)>, x: (Seq<char>, ValueView))
    requires
        keys_unique(s),
        !has_key(s, x.0),
    ensures
        keys_unique(s.push(x)),
        map_of(s.push(x)) == map_of(s).insert(x.0, x.1),
{
    let t = s.push(x);
    assert forall|i: int, j: int| 0 <= i < t.len() && 0 <= j < t.len() && i != j implies #[trigger] t[i].0
        != #[trigger] t[j].0 by {
        if i < s.len() && j < s.len() {
            assert(t[i] == s[i] && t[j] == s[j]);
        } else if i < s.len() {
            assert(t[i] == s[i]);
        } else {
            assert(t[j] == s[j]);
        }
    }
    assert forall|p: Seq<char>| #[trigger] map_of(t).dom().contains(p) <==> map_of(s).insert(x.0, x.1).dom().contains(p) by {
        if has_key(s, p) {
            let i = choose|i: int| 0 <= i < s.len() && #[trigger] s[i].0 == p;
            assert(t[i] == s[i]);
        }
        if has_key(t, p) && p != x.0 {
            let i = choose|i: int| 0 <= i < t.len() && #[trigger] t[i].0 == p;
            assert(t[i] == s[i]);
        }
        if p == x.0 {
            assert(t[s.len() as int] == x);
        }
    }
    assert forall|p: Seq<char>| #[trigger] map_of(t).dom().contains(p) implies map_of(t)[p] == map_of(s).insert(x.0, x.1)[p] by {
        if p == x.0 {
            lemma_map_of_index(t, s.len() as int);
        } else {
            let i = choose|i: int| 0 <= i < s.len() && #[trigger] s[i].0 == p;
            assert(t[i] == s[i]);
            lemma_map_of_index(t, i);
            lemma_map_of_index(s, i);
        }
    }
    assert(map_of(t) =~= map_of(s).insert(x.0, x.1));
}

/// A resolved tree: the map from file paths to values. Directories are not
/// stored; a path is a directory when some file lies below it.
#[derive(Debug)]
pub struct Tree {
    entries: Vec<(RepoPathBuf, TreeValue)>,
}

impl View for Tree {
    type V = Map<Seq<char>, ValueView>;

    closed spec fn view(&self) -> Map<Seq<char>, ValueView> {
        map_of(entry_views(self.entries@))
    }
}

impl Tree {
    #[verifier::type_invariant]
    pub closed spec fn inv(self) -> bool {
        &&& keys_unique(entry_views(self.entries@))
        &&& well_formed_map(self@)
    }

    /// The entries in the order they are stored.
    pub closed spec fn entry_seq(self) -> Seq<(Seq<char>, ValueView)> {
        entry_views(self.entries@)
    }

    /// What the type invariant says: the entries have distinct paths, they
    /// are exactly the tree's map, and the map is well formed.
    pub proof fn lemma_entries(t: Tree)
        requires
            t.inv(),
        ensures
            keys_unique(t.entry_seq()),
            t@ == map_of(t.entry_seq()),
            well_formed_map(t@),
            forall|i: int|
                0 <= i < t.entry_seq().len() ==> #[trigger] t@.dom().contains(t.entry_seq()[i].0)
                    && t@[t.entry_seq()[i].0] == t.entry_seq()[i].1,
    {
        assert forall|i: int| 0 <= i < t.entry_seq().len() implies #[trigger] t@.dom().contains(
            t.entry_seq()[i].0,
        ) && t@[t.entry_seq()[i].0] == t.entry_seq()[i].1 by {
            lemma_map_of_index(t.entry_seq(), i);
        }
    }

    /// The empty tree.
    pub fn empty() -> (r: Tree)
        ensures
            r@ == Map::<Seq<char>, ValueView>::empty(),
    {
        let r = Tree { entries: Vec::new() };
        assert(r@ =~= Map::<Seq<char>, ValueView>::empty());
        r
    }

    /// The number of file entries.
    pub fn len(&self) -> (r: usize)
        ensures
            r == self.entry_seq().len(),
    {
        self.entries.len()
    }

    /// The `i`-th entry in storage order.
    pub fn entry(&self, i: usize) -> (r: (&RepoPathBuf, &TreeValue))
        requires
            i < self.entry_seq().len(),
        ensures
            (r.0@, r.1@) == self.entry_seq()[i as int],
    {
        let e = &self.entries[i];
        (&e.0, &e.1)
    }

    /// The value of the file at `path`, if there is one.
    pub fn get(&self, path: &RepoPathBuf) -> (r: Option<&TreeValue>)
        ensures
            r is Some <==> self@.dom().contains(path@),
            r matches Some(v) ==> v@ == self@[path@],
    {
        proof {
            use_type_invariant(self);
            Tree::lemma_entries(*self);
        }
        let mut i: usize = 0;
        while i < self.entries.len()
            invariant
                self.inv(),
                i <= self.entries@.len(),
                forall|j: int| 0 <= j < i ==> self.entry_seq()[j].0 != path@,
            decreases self.entries@.len() - i,
        {
            if self.entries[i].0.same_as(path) {
                proof {
                    lemma_map_of_index(self.entry_seq(), i as int);
                }
                return Some(&self.entries[i].1);
            }
            i = i + 1;
        }
        assert(!has_key(self.entry_seq(), path@));
        None
    }
}

pub open spec fn opt_view(v: Option<TreeValue>) -> Option<ValueView> {
    match v {
        Some(x) => Some(x@),
        None => None,
    }
}

impl Tree {
    /// A copy of this tree.
    pub fn copy(&self) -> (r: Tree)
        ensures
            r@ == self@,
    {
        proof {
            use_type_invariant(self);
        }
        let mut entries: Vec<(RepoPathBuf, TreeValue)> = Vec::with_capacity(self.entries.len());
        let mut i: usize = 0;
        while i < self.entries.len()
            invariant
                i <= self.entries@.len(),
                entries@.len() == i,
                forall|j: int| 0 <= j < i ==> (#[trigger] entries@[j]).0@ == self.entries@[j].0@ && entries@[j].1@
                    == self.entries@[j].1@,
            decreases self.entries@.len() - i,
        {
            entries.push((self.entries[i].0.to_owned_path(), self.entries[i].1.copy()));
            i = i + 1;
        }
        assert(entry_views(entries@) =~= entry_views(self.entries@));
        Tree { entries }
    }
}

impl Clone for Tree {
    fn clone(&self) -> (r: Self)
        ensures
            r@ == self@,
    {
        self.copy()
    }
}

/// Whether an edit at `p` displaces the file at `k`. Setting a file at `p`
/// displaces a file at `p` or at one of its ancestors, and every file below
/// `p`; removing `p` takes away `p` and everything below it.
pub open spec fn clashes(p: Seq<char>, k: Seq<char>, setting: bool) -> bool {
    if setting {
        under(k, p) || strictly_under(p, k)
    } else {
        under(p, k)
    }
}

/// The files of `m` that an edit at `p` leaves in place.
pub open spec fn kept(m: Map<Seq<char>, ValueView>, p: Seq<char>, setting: bool) -> Map<
    Seq<char>,
    ValueView,
> {
    Map::new(|k: Seq<char>| m.dom().contains(k) && !clashes(p, k, setting), |k: Seq<char>| m[k])
}

/// The map after setting `p` to `v`, or removing `p` where `v` is `None`.
/// Setting the root is no edit: the root is always a directory.
pub open spec fn edited(m: Map<Seq<char>, ValueView>, p: Seq<char>, v: Option<ValueView>) -> Map<
    Seq<char>,
    ValueView,
> {
    match v {
        Some(x) => if p.len() == 0 {
            m
        } else {
            kept(m, p, true).insert(p, x)
        },
        None => kept(m, p, false),
    }
}

impl Tree {
    /// The entries that an edit at `path` leaves in place.
    fn kept_entries(&self, path: &RepoPathBuf, setting: bool) -> (r: Vec<(RepoPathBuf, TreeValue)>)
        ensures
            keys_unique(entry_views(r@)),
            map_of(entry_views(r@)) == kept(self@, path@, setting),
    {
        proof {
            use_type_invariant(self);
            Tree::lemma_entries(*self);
        }
        let ghost s = self.entry_seq();
        let ghost m = self@;
        let mut r: Vec<(RepoPathBuf, TreeValue)> = Vec::new();
        let mut i: usize = 0;
        while i < self.entries.len()
            invariant
                s == self.entry_seq(),
                s.len() == self.entries@.len(),
                m == self@,
                keys_unique(s),
                forall|j: int| 0 <= j < s.len() ==> #[trigger] m.dom().contains(s[j].0) && m[s[j].0] == s[j].1,
                i <= s.len(),
                keys_unique(entry_views(r@)),
                map_of(entry_views(r@)) == Map::new(
                    |k: Seq<char>| has_key(s.subrange(0, i as int), k) && !clashes(path@, k, setting),
                    |k: Seq<char>| m[k],
                ),
            decreases s.len() - i,
        {
            let key = &self.entries[i].0;
            let clash = if setting {
                path.starts_with(key) || (key.starts_with(path) && !key.same_as(path))
            } else {
                key.starts_with(path)
            };
            let ghost old_r = entry_views(r@);
            let ghost si = s.subrange(0, i as int);
            let ghost sn = s.subrange(0, i + 1);
            assert(s[i as int] == (self.entries@[i as int].0@, self.entries@[i as int].1@));
            if !clash {
                let e = (self.entries[i].0.to_owned_path(), self.entries[i].1.copy());
                proof {
                    if has_key(old_r, s[i as int].0) {
                        assert(map_of(old_r).dom().contains(s[i as int].0));
                        assert(has_key(si, s[i as int].0));
                        let j = choose|j: int| 0 <= j < si.len() && #[trigger] si[j].0 == s[i as int].0;
                        assert(si[j] == s[j]);
                        assert(false);
                    }
                    assert(entry_views(r@.push(e)) =~= old_r.push(s[i as int]));
                    lemma_map_of_push(old_r, s[i as int]);
                }
                r.push(e);
            }
            proof {
                let target = Map::new(
                    |k: Seq<char>| has_key(sn, k) && !clashes(path@, k, setting),
                    |k: Seq<char>| m[k],
                );
                assert forall|k: Seq<char>| #[trigger] has_key(sn, k) <==> (has_key(si, k) || k == s[i as int].0) by {
                    if has_key(si, k) {
                        let j = choose|j: int| 0 <= j < si.len() && #[trigger] si[j].0 == k;
                        assert(sn[j] == si[j]);
                    }
                    if has_key(sn, k) {
                        let j = choose|j: int| 0 <= j < sn.len() && #[trigger] sn[j].0 == k;
                        if j < i {
                            assert(si[j] == sn[j]);
                        }
                    }
                    if k == s[i as int].0 {
                        assert(sn[i as int] == s[i as int]);
                    }
                }
                assert(map_of(entry_views(r@)) =~= target);
            }
            i = i + 1;
        }
        proof {
            assert(s.subrange(0, s.len() as int) =~= s);
            assert forall|k: Seq<char>| has_key(s, k) <==> #[trigger] m.dom().contains(k) by {
                if has_key(s, k) {
                    let j = choose|j: int| 0 <= j < s.len() && #[trigger] s[j].0 == k;
                }
            }
            assert(map_of(entry_views(r@)) =~= kept(m, path@, setting));
        }
        r
    }
}

/// Accumulates edits on a base tree and hands back the edited tree.
pub struct TreeBuilder {
    tree: Tree,
}

impl View for TreeBuilder {
    type V = Map<Seq<char>, ValueView>;

    closed spec fn view(&self) -> Map<Seq<char>, ValueView> {
        self.tree@
    }
}

impl TreeBuilder {
    pub fn new(base: Tree) -> (r: TreeBuilder)
        ensures
            r@ == base@,
    {
        TreeBuilder { tree: base }
    }

    /// Sets the file at `path` to `value`, or removes `path` and everything
    /// below it where `value` is `None`.
    pub fn set_or_remove(&mut self, path: RepoPathBuf, value: Option<TreeValue>)
        ensures
            final(self)@ == edited(old(self)@, path@, opt_view(value)),
    {
        proof {
            use_type_invariant(&path);
            RepoPathBuf::lemma_valid(path);
            use_type_invariant(&self.tree);
            Tree::lemma_entries(self.tree);
        }
        let ghost m = self.tree@;
        match value {
            Some(v) => {
                if path.is_root() {
                    return;
                }
                let mut r = self.tree.kept_entries(&path, true);
                let ghost old_r = entry_views(r@);
                let ghost x = (path@, v@);
                proof {
                    if has_key(old_r, path@) {
                        assert(map_of(old_r).dom().contains(path@));
                    }
                    assert(entry_views(r@.push((path, v))) =~= old_r.push(x));
                    lemma_map_of_push(old_r, x);
                }
                r.push((path, v));
                proof {
                    let n = map_of(entry_views(r@));
                    assert(n == kept(m, x.0, true).insert(x.0, x.1));
                    assert forall|p: Seq<char>, q: Seq<char>|
                        #[trigger] n.dom().contains(p) && #[trigger] n.dom().contains(q) implies !strictly_under(p, q) by {
                        if p != x.0 && q != x.0 {
                            assert(m.dom().contains(p) && m.dom().contains(q));
                        }
                    }
                    assert forall|p: Seq<char>| #[trigger] n.dom().contains(p) implies valid_path(p) && p.len() > 0 by {
                        if p != x.0 {
                            assert(m.dom().contains(p));
                        }
                    }
                }
                self.tree = Tree { entries: r };
            },
            None => {
                let r = self.tree.kept_entries(&path, false);
                proof {
                    let n = map_of(entry_views(r@));
                    assert forall|p: Seq<char>, q: Seq<char>|
                        #[trigger] n.dom().contains(p) && #[trigger] n.dom().contains(q) implies !strictly_under(p, q) by {
                        assert(m.dom().contains(p) && m.dom().contains(q));
                    }
                    assert forall|p: Seq<char>| #[trigger] n.dom().contains(p) implies valid_path(p) && p.len() > 0 by {
                        assert(m.dom().contains(p));
                    }
                }
                self.tree = Tree { entries: r };
            },
        }
    }

    /// The tree with every edit applied.
    pub fn write_tree(self) -> (r: Tree)
        ensures
            r@ == self@,
    {
        self.tree
    }
}

} // verus!
