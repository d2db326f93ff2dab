//! Prefix algorithms over trees: moving a tree under a prefix, taking the
//! part under a prefix back to the root, and checking a prefix against a
//! tree.
use vstd::prelude::*;
use crate::repo_path::RepoPathBuf;
use crate::repo_path::join_paths;
use crate::repo_path::valid_path;
use crate::repo_path::under;
use crate::repo_path::strictly_under;
use crate::repo_path::strip;
use crate::repo_path::join;
use crate::repo_path::lemma_join_strip;
use crate::repo_path::lemma_strip_join;
use crate::repo_path::lemma_ancestor_valid;
use crate::repo_path::lemma_ancestors_ordered;
use crate::repo_path::chars_of;
use crate::tree::Tree;
use crate::tree::TreeBuilder;
use crate::tree::ValueView;
use crate::tree::well_formed_map;
use crate::tree::map_of;
use crate::tree::has_key;
use crate::tree::keys_unique;
use crate::tree::kept;
use crate::tree::opt_view;
use crate::store::BackendError;
use crate::store::Commit;
use crate::store::Store;
use crate::store::find_commit;

verus! {

/// Errors of the subtree operations.
#[derive(Debug)]
pub enum SubtreeError {
    /// An error from the storage backend.
    Backend(BackendError),
    /// The prefix is the repository root.
    InvalidPrefix { message: String },
    /// A file stands where the prefix needs a directory.
    PrefixConflict(RepoPathBuf),
    /// Nothing lies under the prefix.
    NoSubtreeAtPrefix(RepoPathBuf),
}

/// Every file of `m` moved below `p`.
pub open spec fn moved(m: Map<Seq<char>, ValueView>, p: Seq<char>) -> Map<Seq<char>, ValueView> {
    Map::new(
        |q: Seq<char>| strictly_under(p, q) && m.dom().contains(strip(p, q)),
        |q: Seq<char>| m[strip(p, q)],
    )
}

/// The files of `m` strictly below `p`, with `p` taken off their paths.
pub open spec fn extracted(m: Map<Seq<char>, ValueView>, p: Seq<char>) -> Map<Seq<char>, ValueView> {
    Map::new(|q: Seq<char>| q.len() > 0 && m.dom().contains(join(p, q)), |q: Seq<char>| m[join(p, q)])
}

/// Some file of `m` is `p` or lies below it.
pub open spec fn has_content_under(m: Map<Seq<char>, ValueView>, p: Seq<char>) -> bool {
    exists|k: Seq<char>| #[trigger] m.dom().contains(k) && under(p, k)
}

/// A file of `m` at a non-root ancestor of `p`, `p` itself included.
pub open spec fn is_conflicting_file(m: Map<Seq<char>, ValueView>, p: Seq<char>, a: Seq<char>) -> bool {
    a.len() > 0 && under(a, p) && m.dom().contains(a)
}

/// Joining a non-root prefix keeps how two non-root paths relate.
pub proof fn lemma_join_relations(p: Seq<char>, a: Seq<char>, b: Seq<char>)
    requires
        p.len() > 0,
        a.len() > 0,
        b.len() > 0,
    ensures
        (join(p, a) == join(p, b)) == (a == b),
        strictly_under(join(p, a), join(p, b)) == strictly_under(a, b),
{
    let x = join(p, a);
    let y = join(p, b);
    let n = p.len() + 1;
    if x == y {
        assert(a =~= x.subrange(n as int, x.len() as int));
        assert(b =~= y.subrange(n as int, y.len() as int));
    }
    if strictly_under(x, y) {
        assert(b.subrange(0, a.len() as int) =~= y.subrange(0, x.len() as int).subrange(
            n as int,
            x.len() as int,
        ));
        assert(x.subrange(n as int, x.len() as int) =~= a);
        assert(b[a.len() as int] == y[x.len() as int]);
    }
    if strictly_under(a, b) {
        assert(y.subrange(0, x.len() as int) =~= x);
        assert(y[x.len() as int] == b[a.len() as int]);
    }
}

/// Moves every file of `source_tree` below `prefix`.
pub fn move_tree_to_prefix(source_tree: &Tree, prefix: &RepoPathBuf) -> (r: Result<Tree, SubtreeError>)
    ensures
        r is Err <==> prefix@.len() == 0,
        r matches Err(e) ==> e is InvalidPrefix,
        r matches Ok(t) ==> t@ == moved(source_tree@, prefix@),
{
    if prefix.is_root() {
        return Err(
            SubtreeError::InvalidPrefix { message: "prefix cannot be the repository root".to_string() },
        );
    }
    proof {
        use_type_invariant(source_tree);
        Tree::lemma_entries(*source_tree);
        use_type_invariant(prefix);
        RepoPathBuf::lemma_valid(*prefix);
    }
    let ghost p = prefix@;
    let ghost m = source_tree@;
    let ghost s = source_tree.entry_seq();
    let mut builder = TreeBuilder::new(Tree::empty());
    let n = source_tree.len();
    let mut i: usize = 0;
    while i < n
        invariant
            n == s.len(),
            s == source_tree.entry_seq(),
            m == source_tree@,
            p == prefix@,
            p.len() > 0,
            valid_path(p),
            keys_unique(s),
            well_formed_map(m),
            forall|j: int| 0 <= j < s.len() ==> #[trigger] m.dom().contains(s[j].0) && m[s[j].0] == s[j].1,
            i <= n,
            builder@ == Map::new(
                |q: Seq<char>| strictly_under(p, q) && has_key(s.subrange(0, i as int), strip(p, q)),
                |q: Seq<char>| m[strip(p, q)],
            ),
        decreases n - i,
    {
        let (path, value) = source_tree.entry(i);
        let ghost k = s[i as int].0;
        let prefixed = join_paths(prefix, path);
        let ghost jk = join(p, k);
        proof {
            assert(m.dom().contains(k));
            lemma_join_strip(p, k);
            let b = builder@;
            assert forall|q: Seq<char>| #[trigger] b.dom().contains(q) implies !(under(q, jk)
                || strictly_under(jk, q)) by {
                let si = s.subrange(0, i as int);
                let j = choose|j: int| 0 <= j < si.len() && #[trigger] si[j].0 == strip(p, q);
                assert(si[j] == s[j]);
                let kq = s[j].0;
                assert(m.dom().contains(kq));
                lemma_strip_join(p, q);
                lemma_join_relations(p, kq, k);
                lemma_join_relations(p, k, kq);
            }
            assert(kept(b, jk, true) =~= b);
        }
        let ghost b0 = builder@;
        let v = value.copy();
        builder.set_or_remove(prefixed, Some(v));
        proof {
            assert(opt_view(Some(v)) == Some(s[i as int].1));
            assert(jk.len() > 0);
            assert(builder@ == kept(b0, jk, true).insert(jk, s[i as int].1));
            assert(builder@ == b0.insert(jk, s[i as int].1));
            let si = s.subrange(0, i as int);
            let sn = s.subrange(0, i + 1);
            assert forall|q: Seq<char>| has_key(sn, q) <==> #[trigger] has_key(si, q) || q == k by {
                if has_key(si, q) {
                    let j = choose|j: int| 0 <= j < si.len() && #[trigger] si[j].0 == q;
                    assert(sn[j] == si[j]);
                }
                if has_key(sn, q) {
                    let j = choose|j: int| 0 <= j < sn.len() && #[trigger] sn[j].0 == q;
                    if j < i {
                        assert(si[j] == sn[j]);
                    }
                }
                if q == k {
                    assert(sn[i as int] == s[i as int]);
                }
            }
            assert forall|q: Seq<char>| strictly_under(p, q) && #[trigger] strip(p, q) == k implies q == jk by {
                assert(m.dom().contains(k));
                lemma_strip_join(p, q);
            }
            let target = Map::new(
                |q: Seq<char>| strictly_under(p, q) && has_key(sn, strip(p, q)),
                |q: Seq<char>| m[strip(p, q)],
            );
            assert forall|q: Seq<char>| #[trigger] builder@.dom().contains(q) <==> target.dom().contains(q) by {
                if has_key(sn, strip(p, q)) {
                    assert(has_key(si, strip(p, q)) || strip(p, q) == k);
                }
                if q == jk {
                    assert(strictly_under(p, q) && strip(p, q) == k);
                    assert(sn[i as int].0 == k);
                    assert(has_key(sn, k));
                }
            }
            assert forall|q: Seq<char>| #[trigger] builder@.dom().contains(q) implies builder@[q] == target[q] by {
                if q == jk {
                    assert(strip(p, q) == k);
                }
            }
            assert(builder@ =~= target);
        }
        i = i + 1;
    }
    proof {
        assert(s.subrange(0, n as int) =~= s);
        assert forall|k: Seq<char>| has_key(s, k) <==> #[trigger] m.dom().contains(k) by {
            if has_key(s, k) {
                let j = choose|j: int| 0 <= j < s.len() && #[trigger] s[j].0 == k;
            }
        }
        assert(builder@ =~= moved(m, p));
    }
    Ok(builder.write_tree())
}

/// Takes the files strictly below `prefix` out of `source_tree`, with
/// `prefix` stripped from their paths. A file at `prefix` itself and the files
/// outside it are left out.
pub fn extract_subtree(source_tree: &Tree, prefix: &RepoPathBuf) -> (r: Result<Tree, SubtreeError>)
    ensures
        r is Err <==> prefix@.len() == 0,
        r matches Err(e) ==> e is InvalidPrefix,
        r matches Ok(t) ==> t@ == extracted(source_tree@, prefix@),
{
    if prefix.is_root() {
        return Err(
            SubtreeError::InvalidPrefix { message: "prefix cannot be the repository root".to_string() },
        );
    }
    proof {
        use_type_invariant(source_tree);
        Tree::lemma_entries(*source_tree);
        use_type_invariant(prefix);
        RepoPathBuf::lemma_valid(*prefix);
    }
    let ghost p = prefix@;
    let ghost m = source_tree@;
    let ghost s = source_tree.entry_seq();
    let mut builder = TreeBuilder::new(Tree::empty());
    let n = source_tree.len();
    let mut i: usize = 0;
    while i < n
        invariant
            n == s.len(),
            s == source_tree.entry_seq(),
            m == source_tree@,
            p == prefix@,
            p.len() > 0,
            valid_path(p),
            keys_unique(s),
            well_formed_map(m),
            forall|j: int| 0 <= j < s.len() ==> #[trigger] m.dom().contains(s[j].0) && m[s[j].0] == s[j].1,
            i <= n,
            builder@ == Map::new(
                |q: Seq<char>| q.len() > 0 && has_key(s.subrange(0, i as int), join(p, q)),
                |q: Seq<char>| m[join(p, q)],
            ),
        decreases n - i,
    {
        let (path, value) = source_tree.entry(i);
        let ghost k = s[i as int].0;
        let ghost si = s.subrange(0, i as int);
        let ghost sn = s.subrange(0, i + 1);
        let ghost b0 = builder@;
        proof {
            assert(m.dom().contains(k));
            assert forall|q: Seq<char>| has_key(sn, q) <==> #[trigger] has_key(si, q) || q == k by {
                if has_key(si, q) {
                    let j = choose|j: int| 0 <= j < si.len() && #[trigger] si[j].0 == q;
                    assert(sn[j] == si[j]);
                }
                if has_key(sn, q) {
                    let j = choose|j: int| 0 <= j < sn.len() && #[trigger] sn[j].0 == q;
                    if j < i {
                        assert(si[j] == sn[j]);
                    }
                }
                if q == k {
                    assert(sn[i as int] == s[i as int]);
                }
            }
        }
        let target = Ghost(Map::new(
            |q: Seq<char>| q.len() > 0 && has_key(sn, join(p, q)),
            |q: Seq<char>| m[join(p, q)],
        ));
        match path.strip_prefix(prefix) {
            Some(relative) => {
                if !relative.is_root() {
                    let ghost rel = relative@;
                    proof {
                        assert(strictly_under(p, k));
                        lemma_strip_join(p, k);
                        assert(join(p, rel) == k);
                        assert forall|q: Seq<char>| #[trigger] b0.dom().contains(q) implies !(under(q, rel)
                            || strictly_under(rel, q)) by {
                            let j = choose|j: int| 0 <= j < si.len() && #[trigger] si[j].0 == join(p, q);
                            assert(si[j] == s[j]);
                            assert(m.dom().contains(s[j].0));
                            assert(s[j].0 != k);
                            lemma_join_relations(p, q, rel);
                            lemma_join_relations(p, rel, q);
                        }
                        assert(kept(b0, rel, true) =~= b0);
                    }
                    let v = value.copy();
                    builder.set_or_remove(relative, Some(v));
                    proof {
                        assert(opt_view(Some(v)) == Some(s[i as int].1));
                        assert(builder@ == b0.insert(rel, s[i as int].1));
                        assert forall|q: Seq<char>| #[trigger] builder@.dom().contains(q) <==> target@.dom().contains(q) by {
                            assert(has_key(sn, join(p, q)) <==> has_key(si, join(p, q)) || join(p, q) == k);
                            if q.len() > 0 && join(p, q) == k {
                                lemma_join_relations(p, q, rel);
                            }
                            if q == rel {
                                assert(sn[i as int].0 == k);
                            }
                        }
                        assert forall|q: Seq<char>| #[trigger] builder@.dom().contains(q) implies builder@[q] == target@[q] by {
                        }
                        assert(builder@ =~= target@);
                    }
                } else {
                    proof {
                        assert forall|q: Seq<char>| #[trigger] b0.dom().contains(q) <==> target@.dom().contains(q) by {
                            if q.len() > 0 && join(p, q) == k {
                                lemma_join_strip(p, q);
                            }
                        }
                        assert(b0 =~= target@);
                    }
                }
            },
            None => {
                proof {
                    assert forall|q: Seq<char>| #[trigger] b0.dom().contains(q) <==> target@.dom().contains(q) by {
                        if q.len() > 0 && join(p, q) == k {
                            lemma_join_strip(p, q);
                        }
                    }
                    assert(b0 =~= target@);
                }
            },
        }
        i = i + 1;
    }
    proof {
        assert(s.subrange(0, n as int) =~= s);
        assert forall|k: Seq<char>| has_key(s, k) <==> #[trigger] m.dom().contains(k) by {
            if has_key(s, k) {
                let j = choose|j: int| 0 <= j < s.len() && #[trigger] s[j].0 == k;
            }
        }
        assert(builder@ =~= extracted(m, p));
    }
    Ok(builder.write_tree())
}

/// Moving a tree below a non-root prefix and extracting that prefix again
/// gives back the same map of paths to values.
pub proof fn lemma_extract_after_move(m: Map<Seq<char>, ValueView>, p: Seq<char>)
    requires
        well_formed_map(m),
        valid_path(p),
        p.len() > 0,
    ensures
        extracted(moved(m, p), p) == m,
{
    assert forall|q: Seq<char>| #[trigger] extracted(moved(m, p), p).dom().contains(q) <==> m.dom().contains(q) by {
        if q.len() > 0 {
            lemma_join_strip(p, q);
        }
    }
    assert forall|q: Seq<char>| #[trigger] m.dom().contains(q) implies extracted(moved(m, p), p)[q] == m[q] by {
        lemma_join_strip(p, q);
    }
    assert(extracted(moved(m, p), p) =~= m);
}

/// A tree whose files all lie below a non-root prefix is what moving its
/// extracted part back below that prefix gives.
pub proof fn lemma_move_after_extract(m: Map<Seq<char>, ValueView>, p: Seq<char>)
    requires
        well_formed_map(m),
        valid_path(p),
        p.len() > 0,
        forall|k: Seq<char>| #[trigger] m.dom().contains(k) ==> strictly_under(p, k),
    ensures
        moved(extracted(m, p), p) == m,
{
    assert forall|q: Seq<char>| #[trigger] moved(extracted(m, p), p).dom().contains(q) <==> m.dom().contains(q) by {
        if m.dom().contains(q) {
            lemma_strip_join(p, q);
        }
        if strictly_under(p, q) && extracted(m, p).dom().contains(strip(p, q)) {
            lemma_strip_join(p, q);
        }
    }
    assert forall|q: Seq<char>| #[trigger] m.dom().contains(q) implies moved(extracted(m, p), p)[q] == m[q] by {
        lemma_strip_join(p, q);
    }
    assert(moved(extracted(m, p), p) =~= m);
}

/// Whether some file of `tree` is `prefix` or lies below it.
pub fn has_subtree_at_prefix(tree: &Tree, prefix: &RepoPathBuf) -> (r: Result<bool, SubtreeError>)
    ensures
        r == Ok::<bool, SubtreeError>(has_content_under(tree@, prefix@)),
{
    proof {
        use_type_invariant(tree);
        Tree::lemma_entries(*tree);
    }
    let ghost s = tree.entry_seq();
    let n = tree.len();
    let mut i: usize = 0;
    while i < n
        invariant
            n == s.len(),
            s == tree.entry_seq(),
            tree@ == map_of(s),
            i <= n,
            forall|j: int| 0 <= j < s.len() ==> #[trigger] tree@.dom().contains(s[j].0),
            forall|j: int| 0 <= j < i ==> !under(prefix@, #[trigger] s[j].0),
        decreases n - i,
    {
        let (path, _value) = tree.entry(i);
        if path.starts_with(prefix) {
            proof {
                assert(tree@.dom().contains(s[i as int].0));
            }
            return Ok(true);
        }
        i = i + 1;
    }
    proof {
        assert forall|k: Seq<char>| #[trigger] tree@.dom().contains(k) implies !under(prefix@, k) by {
            let j = choose|j: int| 0 <= j < s.len() && #[trigger] s[j].0 == k;
        }
    }
    Ok(false)
}

/// The file that stands where `prefix` needs a directory: a file at `prefix`
/// itself or at one of its non-root ancestors. The candidates are tried from
/// `prefix` itself up towards the root; in a tree at most one of them can be
/// a file, since no file lies below another.
pub fn prefix_conflicts_with_file(tree: &Tree, prefix: &RepoPathBuf) -> (r: Result<
    Option<RepoPathBuf>,
    SubtreeError,
>)
    ensures
        r is Ok,
        r matches Ok(Some(a)) ==> is_conflicting_file(tree@, prefix@, a@) && forall|b: Seq<char>|
            is_conflicting_file(tree@, prefix@, b) ==> b == a@,
        r matches Ok(None) ==> forall|b: Seq<char>| !is_conflicting_file(tree@, prefix@, b),
{
    proof {
        use_type_invariant(tree);
        Tree::lemma_entries(*tree);
        use_type_invariant(prefix);
        RepoPathBuf::lemma_valid(*prefix);
    }
    let ghost m = tree@;
    let ghost p = prefix@;
    if prefix.is_root() {
        return Ok(None);
    }
    if tree.get(prefix).is_some() {
        proof {
            assert forall|b: Seq<char>| is_conflicting_file(m, p, b) implies b == p by {
                if b != p {
                    lemma_ancestors_ordered(b, p, p);
                }
            }
        }
        return Ok(Some(prefix.to_owned_path()));
    }
    let s = prefix.as_internal_file_string();
    let cs = chars_of(s);
    let n = cs.len();
    let mut i: usize = n - 1;
    while i > 0
        invariant
            cs@ == p,
            s@ == p,
            p == prefix@,
            n == p.len(),
            valid_path(p),
            p.len() > 0,
            i < n,
            m == tree@,
            well_formed_map(m),
            !m.dom().contains(p),
            forall|j: int| i < j < n && cs@[j] == '/' ==> !m.dom().contains(#[trigger] p.subrange(0, j)),
        decreases i,
    {
        if cs[i] == '/' {
            proof {
                lemma_ancestor_valid(p, i as int);
            }
            let candidate = RepoPathBuf::from_valid(s.substring_char(0, i).to_owned());
            if tree.get(&candidate).is_some() {
                proof {
                    let a = p.subrange(0, i as int);
                    assert(candidate@ == a);
                    assert(m.dom().contains(a));
                    assert(is_conflicting_file(m, p, a));
                    assert forall|b: Seq<char>| is_conflicting_file(m, p, b) implies b == a by {
                        if b != a {
                            lemma_ancestors_ordered(b, a, p);
                            assert(m.dom().contains(b) && m.dom().contains(a));
                            assert(!strictly_under(a, b) && !strictly_under(b, a));
                        }
                    }
                }
                return Ok(Some(candidate));
            }
        }
        i = i - 1;
    }
    proof {
        assert forall|b: Seq<char>| !is_conflicting_file(m, p, b) by {
            if is_conflicting_file(m, p, b) && b != p {
                let j = b.len() as int;
                assert(p.subrange(0, j) == b);
                assert(cs@[j] == '/');
            }
        }
    }
    Ok(None)
}

/// The files of `m` that are `p` or lie below it.
pub open spec fn restricted(m: Map<Seq<char>, ValueView>, p: Seq<char>) -> Map<Seq<char>, ValueView> {
    Map::new(|k: Seq<char>| m.dom().contains(k) && under(p, k), |k: Seq<char>| m[k])
}

/// The tree a commit is compared with: its primary parent's, or the empty
/// tree for a commit without parents. `None` where the store lacks the
/// primary parent.
pub open spec fn comparison_tree(cs: Seq<Commit>, c: Commit) -> Option<Map<Seq<char>, ValueView>> {
    if c.parent_ids@.len() == 0 {
        Some(Map::empty())
    } else {
        match find_commit(cs, c.parent_ids@[0]@) {
            Some(parent) => Some(parent.tree@),
            None => None,
        }
    }
}

/// Whether `c` changed anything at or below `p` against its comparison tree.
pub open spec fn commit_changes_prefix(cs: Seq<Commit>, c: Commit, p: Seq<char>) -> bool {
    restricted(comparison_tree(cs, c).unwrap(), p) != restricted(c.tree@, p)
}

/// Whether the two trees differ at or below `prefix`.
pub fn trees_differ_under(a: &Tree, b: &Tree, prefix: &RepoPathBuf) -> (r: bool)
    ensures
        r == (restricted(a@, prefix@) != restricted(b@, prefix@)),
{
    proof {
        use_type_invariant(a);
        Tree::lemma_entries(*a);
        use_type_invariant(b);
        Tree::lemma_entries(*b);
    }
    let ghost p = prefix@;
    let ghost sa = a.entry_seq();
    let ghost sb = b.entry_seq();
    let mut i: usize = 0;
    while i < b.len()
        invariant
            sb == b.entry_seq(),
            p == prefix@,
            i <= sb.len(),
            forall|j: int| 0 <= j < sb.len() ==> #[trigger] b@.dom().contains(sb[j].0) && b@[sb[j].0] == sb[j].1,
            forall|j: int|
                0 <= j < i && under(p, #[trigger] sb[j].0) ==> a@.dom().contains(sb[j].0) && a@[sb[j].0] == sb[j].1,
        decreases sb.len() - i,
    {
        let (path, value) = b.entry(i);
        if path.starts_with(prefix) {
            let ghost k = sb[i as int].0;
            match a.get(path) {
                None => {
                    proof {
                        assert(restricted(b@, p).dom().contains(k));
                        assert(!restricted(a@, p).dom().contains(k));
                    }
                    return true;
                },
                Some(other) => {
                    if !other.same_as(value) {
                        proof {
                            assert(restricted(b@, p)[k] != restricted(a@, p)[k]);
                        }
                        return true;
                    }
                },
            }
        }
        i = i + 1;
    }
    let mut i: usize = 0;
    while i < a.len()
        invariant
            sa == a.entry_seq(),
            p == prefix@,
            i <= sa.len(),
            forall|j: int| 0 <= j < sa.len() ==> #[trigger] a@.dom().contains(sa[j].0) && a@[sa[j].0] == sa[j].1,
            forall|j: int| 0 <= j < i && under(p, #[trigger] sa[j].0) ==> b@.dom().contains(sa[j].0),
        decreases sa.len() - i,
    {
        let (path, _value) = a.entry(i);
        if path.starts_with(prefix) && b.get(path).is_none() {
            proof {
                let k = sa[i as int].0;
                assert(restricted(a@, p).dom().contains(k));
                assert(!restricted(b@, p).dom().contains(k));
            }
            return true;
        }
        i = i + 1;
    }
    proof {
        let ra = restricted(a@, p);
        let rb = restricted(b@, p);
        assert forall|k: Seq<char>| #[trigger] ra.dom().contains(k) <==> rb.dom().contains(k) by {
            if ra.dom().contains(k) {
                let j = choose|j: int| 0 <= j < sa.len() && #[trigger] sa[j].0 == k;
            }
            if rb.dom().contains(k) {
                let j = choose|j: int| 0 <= j < sb.len() && #[trigger] sb[j].0 == k;
            }
        }
        assert forall|k: Seq<char>| #[trigger] rb.dom().contains(k) implies ra[k] == rb[k] by {
            let j = choose|j: int| 0 <= j < sb.len() && #[trigger] sb[j].0 == k;
        }
        assert(ra =~= rb);
    }
    false
}

/// Whether `commit` changed anything at or below `prefix` against its
/// primary parent, or against the empty tree where it has no parents.
fn commit_modifies_prefix(repo: &Store, commit: &Commit, prefix: &RepoPathBuf) -> (r: Result<bool, SubtreeError>)
    ensures
        r is Ok <==> comparison_tree(repo.commits(), *commit) is Some,
        r matches Ok(b) ==> b == commit_changes_prefix(repo.commits(), *commit, prefix@),
        r matches Err(e) ==> e is Backend,
{
    let empty = Tree::empty();
    let parent_tree: &Tree = if commit.parent_ids.len() == 0 {
        &empty
    } else {
        match repo.get_commit(&commit.parent_ids[0]) {
            Ok(parent) => &parent.tree,
            Err(e) => {
                return Err(SubtreeError::Backend(e));
            },
        }
    };
    Ok(trees_differ_under(parent_tree, &commit.tree, prefix))
}

/// For each commit, in order, whether it changed anything at or below
/// `prefix` against its primary parent (a merge is compared with its first
/// parent only) or, for a commit without parents, against the empty tree.
pub fn filter_commits_by_prefix(repo: &Store, commits: Vec<Commit>, prefix: &RepoPathBuf) -> (r: Result<
    Vec<(Commit, bool)>,
    SubtreeError,
>)
    ensures
        r is Ok <==> forall|i: int|
            0 <= i < commits@.len() ==> #[trigger] comparison_tree(repo.commits(), commits@[i]) is Some,
        r matches Err(e) ==> e is Backend,
        r matches Ok(v) ==> v@.len() == commits@.len() && forall|i: int|
            0 <= i < commits@.len() ==> #[trigger] v@[i] == (commits@[i], commit_changes_prefix(
                repo.commits(),
                commits@[i],
                prefix@,
            )),
{
    let n = commits.len();
    let mut flags: Vec<bool> = Vec::with_capacity(n);
    let mut i: usize = 0;
    while i < n
        invariant
            n == commits@.len(),
            i <= n,
            flags@.len() == i,
            forall|j: int| 0 <= j < i ==> #[trigger] comparison_tree(repo.commits(), commits@[j]) is Some,
            forall|j: int|
                0 <= j < i ==> #[trigger] flags@[j] == commit_changes_prefix(repo.commits(), commits@[j], prefix@),
        decreases n - i,
    {
        match commit_modifies_prefix(repo, &commits[i], prefix) {
            Ok(b) => flags.push(b),
            Err(e) => {
                return Err(e);
            },
        }
        i = i + 1;
    }
    let ghost cs = commits@;
    let ghost fs = flags@;
    let mut commits = commits;
    let mut reversed: Vec<(Commit, bool)> = Vec::with_capacity(n);
    while commits.len() > 0
        invariant
            cs.len() == n,
            fs.len() == n,
            commits@.len() == flags@.len(),
            commits@.len() + reversed@.len() == n,
            commits@ == cs.subrange(0, commits@.len() as int),
            flags@ == fs.subrange(0, flags@.len() as int),
            forall|j: int| 0 <= j < reversed@.len() ==> #[trigger] reversed@[j] == (cs[n - 1 - j], fs[n - 1 - j]),
        decreases commits@.len(),
    {
        let c = commits.pop().unwrap();
        let f = flags.pop().unwrap();
        reversed.push((c, f));
    }
    let mut out: Vec<(Commit, bool)> = Vec::with_capacity(n);
    while reversed.len() > 0
        invariant
            reversed@.len() + out@.len() == n,
            forall|j: int| 0 <= j < reversed@.len() ==> #[trigger] reversed@[j] == (cs[n - 1 - j], fs[n - 1 - j]),
            forall|j: int| 0 <= j < out@.len() ==> #[trigger] out@[j] == (cs[j], fs[j]),
        decreases reversed@.len(),
    {
        let x = reversed.pop().unwrap();
        out.push(x);
    }
    Ok(out)
}

} // verus!
