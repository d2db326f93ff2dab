//! Repository paths in their internal form: components joined by `/`, the
//! empty string standing for the root.
use vstd::prelude::*;

verus! {

/// A path is valid when it is the root (empty) or when it neither starts nor
/// ends with `/` and holds no empty component (`//`).
pub open spec fn valid_path(s: Seq<char>) -> bool {
    s.len() == 0 || (s[0] != '/' && s[s.len() - 1] != '/' && forall|i: int|
        0 <= i < s.len() - 1 ==> !(#[trigger] s[i] == '/' && s[i + 1] == '/'))
}

/// `q` lies strictly below `p`: every non-root path lies below the root.
pub open spec fn strictly_under(p: Seq<char>, q: Seq<char>) -> bool {
    q.len() > p.len() && (p.len() == 0 || (q.subrange(0, p.len() as int) == p && q[p.len() as int]
        == '/'))
}

/// `q` is `p` or lies below it: what a prefix matcher for `p` accepts.
pub open spec fn under(p: Seq<char>, q: Seq<char>) -> bool {
    q == p || strictly_under(p, q)
}

/// `q` with the leading `p` taken off, for `q` under `p`.
pub open spec fn strip(p: Seq<char>, q: Seq<char>) -> Seq<char> {
    if p.len() == 0 {
        q
    } else if q.len() <= p.len() {
        Seq::empty()
    } else {
        q.subrange(p.len() as int + 1, q.len() as int)
    }
}

/// `q` appended to `p`; either side being the root leaves the other.
pub open spec fn join(p: Seq<char>, q: Seq<char>) -> Seq<char> {
    if p.len() == 0 {
        q
    } else if q.len() == 0 {
        p
    } else {
        p + seq!['/'] + q
    }
}

pub proof fn lemma_join_strip(p: Seq<char>, q: Seq<char>)
    requires
        p.len() > 0,
        q.len() > 0,
    ensures
        strictly_under(p, join(p, q)),
        strip(p, join(p, q)) == q,
{
    assert(join(p, q).subrange(0, p.len() as int) =~= p);
    assert(join(p, q).subrange(p.len() as int + 1, join(p, q).len() as int) =~= q);
}

pub proof fn lemma_strip_join(p: Seq<char>, q: Seq<char>)
    requires
        p.len() > 0,
        valid_path(q) || strip(p, q).len() > 0,
        strictly_under(p, q),
    ensures
        strip(p, q).len() > 0,
        join(p, strip(p, q)) == q,
{
    let s = strip(p, q);
    assert(s.len() > 0);
    assert forall|i: int| 0 <= i < q.len() implies #[trigger] join(p, s)[i] == q[i] by {
        if i < p.len() {
            assert(q.subrange(0, p.len() as int)[i] == q[i]);
        }
    }
    assert(join(p, s) =~= q);
}

/// Validity is kept by joining two valid paths and by stripping a valid
/// prefix from a valid path below it.
pub proof fn lemma_join_valid(p: Seq<char>, q: Seq<char>)
    requires
        valid_path(p),
        valid_path(q),
    ensures
        valid_path(join(p, q)),
{
    if p.len() > 0 && q.len() > 0 {
        let j = join(p, q);
        assert forall|i: int| 0 <= i < j.len() - 1 implies !(#[trigger] j[i] == '/' && j[i + 1]
            == '/') by {
            if i < p.len() - 1 {
                assert(j[i] == p[i] && j[i + 1] == p[i + 1]);
            } else if i == p.len() - 1 {
                assert(j[i] == p[i]);
            } else if i == p.len() {
                assert(j[i + 1] == q[0]);
            } else {
                assert(j[i] == q[i - p.len() - 1] && j[i + 1] == q[i - p.len()]);
            }
        }
    }
}

pub proof fn lemma_strip_valid(p: Seq<char>, q: Seq<char>)
    requires
        valid_path(q),
        strictly_under(p, q),
    ensures
        valid_path(strip(p, q)),
        strip(p, q).len() > 0,
{
    if p.len() > 0 {
        let s = strip(p, q);
        assert forall|i: int| 0 <= i < s.len() - 1 implies !(#[trigger] s[i] == '/' && s[i + 1]
            == '/') by {
            assert(s[i] == q[i + p.len() + 1] && s[i + 1] == q[i + p.len() + 2]);
        }
        assert(s[0] == q[p.len() as int + 1]);
        assert(s[s.len() - 1] == q[q.len() - 1]);
    }
}

/// The part of a valid path before one of its separators is valid.
pub proof fn lemma_ancestor_valid(p: Seq<char>, i: int)
    requires
        valid_path(p),
        0 < i < p.len(),
        p[i] == '/',
    ensures
        valid_path(p.subrange(0, i)),
        p.subrange(0, i).len() > 0,
        under(p.subrange(0, i), p),
{
    let a = p.subrange(0, i);
    assert(a[i - 1] == p[i - 1]);
    assert(p[i - 1] != '/');
    assert forall|j: int| 0 <= j < a.len() - 1 implies !(#[trigger] a[j] == '/' && a[j + 1] == '/') by {
        assert(a[j] == p[j] && a[j + 1] == p[j + 1]);
    }
    assert(p.subrange(0, a.len() as int) =~= a);
}

/// Two non-root ancestors of one path lie one below the other.
pub proof fn lemma_ancestors_ordered(a: Seq<char>, b: Seq<char>, p: Seq<char>)
    requires
        a.len() > 0,
        b.len() > 0,
        under(a, p),
        under(b, p),
        a != b,
    ensures
        strictly_under(a, b) || strictly_under(b, a),
{
    if a.len() == b.len() {
        if a != p && b != p {
            assert(a =~= p.subrange(0, a.len() as int));
            assert(b =~= p.subrange(0, b.len() as int));
        }
    } else if a.len() < b.len() {
        if b == p {
        } else {
            assert(b.subrange(0, a.len() as int) =~= p.subrange(0, b.len() as int).subrange(0, a.len() as int));
            assert(p.subrange(0, a.len() as int) =~= p.subrange(0, b.len() as int).subrange(0, a.len() as int));
            assert(b[a.len() as int] == p.subrange(0, b.len() as int)[a.len() as int]);
        }
    } else {
        if a == p {
        } else {
            assert(a.subrange(0, b.len() as int) =~= p.subrange(0, a.len() as int).subrange(0, b.len() as int));
            assert(p.subrange(0, b.len() as int) =~= p.subrange(0, a.len() as int).subrange(0, b.len() as int));
            assert(a[b.len() as int] == p.subrange(0, a.len() as int)[b.len() as int]);
        }
    }
}

/// The characters of a string, in order.
pub fn chars_of(s: &str) -> (r: Vec<char>)
    ensures
        r@ == s@,
{
    let n = s.unicode_len();
    let mut r: Vec<char> = Vec::with_capacity(n);
    let mut i: usize = 0;
    while i < n
        invariant
            n == s@.len(),
            i <= n,
            r@ == s@.subrange(0, i as int),
        decreases n - i,
    {
        r.push(s.get_char(i));
        i = i + 1;
    }
    assert(r@ =~= s@);
    r
}

/// Tells whether `s` is a valid internal path string.
pub fn is_valid_path_str(s: &str) -> (r: bool)
    ensures
        r == valid_path(s@),
{
    let cs = chars_of(s);
    let n = cs.len();
    if n == 0 {
        return true;
    }
    if cs[0] == '/' || cs[n - 1] == '/' {
        return false;
    }
    let mut i: usize = 0;
    while i + 1 < n
        invariant
            cs@ == s@,
            n == cs@.len(),
            n > 0,
            i < n,
            forall|j: int| 0 <= j < i ==> !(#[trigger] cs@[j] == '/' && cs@[j + 1] == '/'),
        decreases n - i,
    {
        if cs[i] == '/' && cs[i + 1] == '/' {
            return false;
        }
        i = i + 1;
    }
    true
}

/// The error of a string that is not a valid internal path.
#[derive(Debug, Clone, PartialEq, Eq)]
pub struct InvalidRepoPathError {
    pub value: String,
}

/// An owned repository path.
#[derive(Debug, PartialEq, Eq, Hash)]
pub struct RepoPathBuf {
    value: String,
}

impl View for RepoPathBuf {
    type V = Seq<char>;

    closed spec fn view(&self) -> Seq<char> {
        self.value@
    }
}

impl RepoPathBuf {
    #[verifier::type_invariant]
    pub closed spec fn inv(self) -> bool {
        valid_path(self.value@)
    }

    /// What the type invariant says: the path is valid.
    pub proof fn lemma_valid(p: RepoPathBuf)
        requires
            p.inv(),
        ensures
            valid_path(p@),
    {
    }

    /// The root path.
    pub fn root() -> (r: RepoPathBuf)
        ensures
            r@.len() == 0,
    {
        RepoPathBuf { value: String::new() }
    }

    /// Parses an internal path string: components joined by `/`.
    pub fn from_internal_string(s: &str) -> (r: Result<RepoPathBuf, InvalidRepoPathError>)
        ensures
            valid_path(s@) <==> r is Ok,
            r matches Ok(p) ==> p@ == s@,
            r matches Err(e) ==> e.value@ == s@,
    {
        if is_valid_path_str(s) {
            Ok(RepoPathBuf { value: s.to_owned() })
        } else {
            Err(InvalidRepoPathError { value: s.to_owned() })
        }
    }

    /// Makes a path from a string already known to be valid.
    pub(crate) fn from_valid(value: String) -> (r: RepoPathBuf)
        requires
            valid_path(value@),
        ensures
            r@ == value@,
    {
        RepoPathBuf { value }
    }

    pub fn is_root(&self) -> (r: bool)
        ensures
            r == (self@.len() == 0),
    {
        self.value.as_str().is_empty()
    }

    /// The internal string: components joined by `/`, empty for the root.
    pub fn as_internal_file_string(&self) -> (r: &str)
        ensures
            r@ == self@,
    {
        self.value.as_str()
    }

    /// A copy of this path.
    pub fn to_owned_path(&self) -> (r: RepoPathBuf)
        ensures
            r@ == self@,
    {
        proof {
            use_type_invariant(self);
        }
        RepoPathBuf { value: self.value.clone() }
    }

    /// Whether this path is `base` or lies below it.
    pub fn starts_with(&self, base: &RepoPathBuf) -> (r: bool)
        ensures
            r == under(base@, self@),
    {
        let cs = chars_of(self.as_internal_file_string());
        let bs = chars_of(base.as_internal_file_string());
        let n = cs.len();
        let m = bs.len();
        if m == 0 {
            assert(n == 0 ==> cs@ =~= bs@);
            return true;
        }
        if n < m {
            return false;
        }
        let mut i: usize = 0;
        while i < m
            invariant
                cs@ == self@,
                bs@ == base@,
                n == cs@.len(),
                m == bs@.len(),
                m <= n,
                i <= m,
                forall|j: int| 0 <= j < i ==> cs@[j] == bs@[j],
            decreases m - i,
        {
            if cs[i] != bs[i] {
                assert(cs@.subrange(0, m as int)[i as int] != bs@[i as int]);
                return false;
            }
            i = i + 1;
        }
        assert(cs@.subrange(0, m as int) =~= bs@);
        if n == m {
            assert(cs@ =~= bs@);
            true
        } else {
            cs[m] == '/'
        }
    }

    /// This path with `base` taken off its front, or `None` where it does not
    /// lie under `base`.
    pub fn strip_prefix(&self, base: &RepoPathBuf) -> (r: Option<RepoPathBuf>)
        ensures
            r is Some <==> under(base@, self@),
            r matches Some(x) ==> x@ == strip(base@, self@),
    {
        proof {
            use_type_invariant(self);
        }
        if !self.starts_with(base) {
            return None;
        }
        let s = self.as_internal_file_string();
        let b = base.as_internal_file_string();
        let n = s.unicode_len();
        let m = b.unicode_len();
        if m == 0 {
            Some(self.to_owned_path())
        } else if n <= m {
            Some(RepoPathBuf::root())
        } else {
            proof {
                lemma_strip_valid(base@, self@);
            }
            let rest = s.substring_char(m + 1, n);
            Some(RepoPathBuf::from_valid(rest.to_owned()))
        }
    }

    /// Compares two paths.
    pub fn same_as(&self, other: &RepoPathBuf) -> (r: bool)
        ensures
            r == (self@ == other@),
    {
        self.value == other.value
    }
}

/// `suffix` appended to `prefix`; a root on either side leaves the other.
pub fn join_paths(prefix: &RepoPathBuf, suffix: &RepoPathBuf) -> (r: RepoPathBuf)
    ensures
        r@ == join(prefix@, suffix@),
{
    proof {
        use_type_invariant(prefix);
        use_type_invariant(suffix);
    }
    if prefix.is_root() {
        suffix.to_owned_path()
    } else if suffix.is_root() {
        prefix.to_owned_path()
    } else {
        let mut joined = String::from_str(prefix.as_internal_file_string());
        let sep = "/";
        proof {
            reveal_strlit("/");
        }
        joined.append(sep);
        joined.append(suffix.as_internal_file_string());
        proof {
            assert(joined@ =~= join(prefix@, suffix@));
            lemma_join_valid(prefix@, suffix@);
        }
        RepoPathBuf::from_valid(joined)
    }
}

impl Clone for RepoPathBuf {
    fn clone(&self) -> (r: Self)
        ensures
            r@ == self@,
    {
        self.to_owned_path()
    }
}

} // verus!
