//! Commits and the store that holds them.
use vstd::prelude::*;
use crate::tree::Tree;
use crate::tree::bytes_equal;
use crate::tree::copy_bytes;
use crate::repo_path::chars_of;

verus! {

/// An error of the object store.
#[derive(Debug)]
pub enum BackendError {
    /// No object of this type has this id.
    ObjectNotFound { object_type: String, hash: String },
}

/// The lower-case hexadecimal digits.
pub open spec fn hex_digits() -> Seq<char> {
    seq!['0', '1', '2', '3', '4', '5', '6', '7', '8', '9', 'a', 'b', 'c', 'd', 'e', 'f']
}

/// Two lower-case hexadecimal digits for each byte, high half first.
pub open spec fn hex_of(b: Seq<u8>) -> Seq<char>
    decreases b.len(),
{
    if b.len() == 0 {
        Seq::empty()
    } else {
        hex_of(b.drop_last()) + seq![hex_digits()[b.last() as int / 16], hex_digits()[b.last() as int % 16]]
    }
}

/// The value of a hexadecimal digit of either case, or -1.
pub open spec fn hex_value(c: char) -> int {
    let u = c as u32;
    if 48 <= u && u <= 57 {
        u - 48
    } else if 97 <= u && u <= 102 {
        u - 87
    } else if 65 <= u && u <= 70 {
        u - 55
    } else {
        -1
    }
}

/// An even number of hexadecimal digits.
pub open spec fn is_hex(s: Seq<char>) -> bool {
    s.len() % 2 == 0 && forall|i: int| 0 <= i < s.len() ==> hex_value(#[trigger] s[i]) >= 0
}

/// The bytes that a string of hexadecimal digits spells, two digits each.
pub open spec fn decode_hex(s: Seq<char>) -> Seq<u8> {
    Seq::new(s.len() / 2, |i: int| (hex_value(s[2 * i]) * 16 + hex_value(s[2 * i + 1])) as u8)
}

pub proof fn lemma_hex_digit(d: int)
    requires
        0 <= d < 16,
    ensures
        hex_value(hex_digits()[d]) == d,
{
    if d == 0 { assert(hex_digits()[d] == '0'); }
    else if d == 1 { assert(hex_digits()[d] == '1'); }
    else if d == 2 { assert(hex_digits()[d] == '2'); }
    else if d == 3 { assert(hex_digits()[d] == '3'); }
    else if d == 4 { assert(hex_digits()[d] == '4'); }
    else if d == 5 { assert(hex_digits()[d] == '5'); }
    else if d == 6 { assert(hex_digits()[d] == '6'); }
    else if d == 7 { assert(hex_digits()[d] == '7'); }
    else if d == 8 { assert(hex_digits()[d] == '8'); }
    else if d == 9 { assert(hex_digits()[d] == '9'); }
    else if d == 10 { assert(hex_digits()[d] == 'a'); }
    else if d == 11 { assert(hex_digits()[d] == 'b'); }
    else if d == 12 { assert(hex_digits()[d] == 'c'); }
    else if d == 13 { assert(hex_digits()[d] == 'd'); }
    else if d == 14 { assert(hex_digits()[d] == 'e'); }
    else { assert(hex_digits()[d] == 'f'); }
}

pub proof fn lemma_hex_of_index(b: Seq<u8>)
    ensures
        hex_of(b).len() == 2 * b.len(),
        forall|i: int|
            0 <= i < b.len() ==> hex_of(b)[2 * i] == hex_digits()[(#[trigger] b[i]) as int / 16]
                && hex_of(b)[2 * i + 1] == hex_digits()[b[i] as int % 16],
    decreases b.len(),
{
    if b.len() > 0 {
        let b0 = b.drop_last();
        lemma_hex_of_index(b0);
        assert forall|i: int| 0 <= i < b.len() implies hex_of(b)[2 * i] == hex_digits()[(
        #[trigger] b[i]) as int / 16] && hex_of(b)[2 * i + 1] == hex_digits()[b[i] as int % 16] by {
            if i < b0.len() {
                assert(b0[i] == b[i]);
            }
        }
    }
}

/// Reading the hexadecimal form of some bytes gives back those bytes.
pub proof fn lemma_hex_round_trip(b: Seq<u8>)
    ensures
        is_hex(hex_of(b)),
        decode_hex(hex_of(b)) == b,
        forall|i: int| 0 <= i < hex_of(b).len() ==> hex_value(#[trigger] hex_of(b)[i]) >= 0,
{
    lemma_hex_of_index(b);
    let h = hex_of(b);
    assert forall|i: int| 0 <= i < h.len() implies hex_value(#[trigger] h[i]) >= 0 by {
        let k = i / 2;
        assert(0 <= k < b.len());
        if i % 2 == 0 {
            assert(i == 2 * k);
            lemma_hex_digit(b[k] as int / 16);
        } else {
            assert(i == 2 * k + 1);
            lemma_hex_digit(b[k] as int % 16);
        }
    }
    assert forall|k: int| 0 <= k < b.len() implies #[trigger] decode_hex(h)[k] == b[k] by {
        lemma_hex_digit(b[k] as int / 16);
        lemma_hex_digit(b[k] as int % 16);
        let x = b[k] as int;
        assert(x / 16 * 16 + x % 16 == x) by (nonlinear_arith);
    }
    assert(decode_hex(h) =~= b);
}

fn hex_value_of(c: char) -> (r: i32)
    ensures
        r == hex_value(c),
{
    let u = c as u32;
    if 48 <= u && u <= 57 {
        (u - 48) as i32
    } else if 97 <= u && u <= 102 {
        (u - 87) as i32
    } else if 65 <= u && u <= 70 {
        (u - 55) as i32
    } else {
        -1
    }
}

/// The id of a commit: the bytes of its hash.
#[derive(Debug, PartialEq, Eq, Hash)]
pub struct CommitId {
    bytes: Vec<u8>,
}

impl View for CommitId {
    type V = Seq<u8>;

    closed spec fn view(&self) -> Seq<u8> {
        self.bytes@
    }
}

impl CommitId {
    pub fn new(bytes: Vec<u8>) -> (r: CommitId)
        ensures
            r@ == bytes@,
    {
        CommitId { bytes }
    }

    /// The id in lower-case hexadecimal.
    pub fn hex(&self) -> (r: String)
        ensures
            r@ == hex_of(self@),
    {
        let digits = "0123456789abcdef";
        proof {
            reveal_strlit("0123456789abcdef");
            assert(digits@ =~= hex_digits());
        }
        let mut out = String::new();
        let mut i: usize = 0;
        while i < self.bytes.len()
            invariant
                digits@ == hex_digits(),
                i <= self.bytes@.len(),
                out@ == hex_of(self.bytes@.subrange(0, i as int)),
            decreases self.bytes@.len() - i,
        {
            let b = self.bytes[i];
            let hi = (b / 16) as usize;
            let lo = (b % 16) as usize;
            out.append(digits.substring_char(hi, hi + 1));
            out.append(digits.substring_char(lo, lo + 1));
            proof {
                let sub = self.bytes@.subrange(0, i + 1);
                assert(sub.drop_last() =~= self.bytes@.subrange(0, i as int));
                assert(digits@.subrange(hi as int, hi + 1) =~= seq![hex_digits()[hi as int]]);
                assert(digits@.subrange(lo as int, lo + 1) =~= seq![hex_digits()[lo as int]]);
                assert(out@ =~= hex_of(sub));
            }
            i = i + 1;
        }
        assert(self.bytes@.subrange(0, self.bytes@.len() as int) =~= self.bytes@);
        out
    }

    /// Reads an id from hexadecimal digits of either case; `None` where `s`
    /// has an odd length or a character that is no such digit.
    pub fn try_from_hex(s: &str) -> (r: Option<CommitId>)
        ensures
            r is Some <==> is_hex(s@),
            r matches Some(id) ==> id@ == decode_hex(s@),
    {
        let cs = chars_of(s);
        let n = cs.len();
        if n % 2 != 0 {
            return None;
        }
        let mut i: usize = 0;
        while i < n
            invariant
                cs@ == s@,
                n == cs@.len(),
                i <= n,
                forall|j: int| 0 <= j < i ==> hex_value(#[trigger] cs@[j]) >= 0,
            decreases n - i,
        {
            if hex_value_of(cs[i]) < 0 {
                return None;
            }
            i = i + 1;
        }
        let mut bytes: Vec<u8> = Vec::with_capacity(n / 2);
        let mut k: usize = 0;
        while k < n / 2
            invariant
                cs@ == s@,
                n == cs@.len(),
                n % 2 == 0,
                k <= n / 2,
                forall|j: int| 0 <= j < n ==> hex_value(#[trigger] cs@[j]) >= 0,
                bytes@ =~= decode_hex(s@).subrange(0, k as int),
            decreases n / 2 - k,
        {
            let hi = hex_value_of(cs[2 * k]);
            let lo = hex_value_of(cs[2 * k + 1]);
            assert(hex_value(cs@[2 * k as int]) >= 0 && hex_value(cs@[2 * k + 1]) >= 0);
            let byte = (hi * 16 + lo) as u8;
            bytes.push(byte);
            k = k + 1;
        }
        Some(CommitId { bytes })
    }

    pub fn as_bytes(&self) -> (r: &Vec<u8>)
        ensures
            r@ == self@,
    {
        &self.bytes
    }

    pub fn same_as(&self, other: &CommitId) -> (r: bool)
        ensures
            r == (self@ == other@),
    {
        bytes_equal(&self.bytes, &other.bytes)
    }

    pub fn copy(&self) -> (r: CommitId)
        ensures
            r@ == self@,
    {
        CommitId { bytes: copy_bytes(&self.bytes) }
    }
}

impl Clone for CommitId {
    fn clone(&self) -> (r: Self)
        ensures
            r@ == self@,
    {
        self.copy()
    }
}

/// A commit: its id, its parents (the first one is the primary parent), its
/// tree and its description.
#[derive(Debug, Clone)]
pub struct Commit {
    pub id: CommitId,
    pub parent_ids: Vec<CommitId>,
    pub tree: Tree,
    pub description: String,
}

impl Commit {
    pub fn new(id: CommitId, parent_ids: Vec<CommitId>, tree: Tree, description: String) -> (r: Commit)
        ensures
            r == (Commit { id, parent_ids, tree, description }),
    {
        Commit { id, parent_ids, tree, description }
    }

    pub fn id(&self) -> (r: &CommitId)
        ensures
            r == &self.id,
    {
        &self.id
    }

    pub fn parent_ids(&self) -> (r: &Vec<CommitId>)
        ensures
            r == &self.parent_ids,
    {
        &self.parent_ids
    }

    pub fn tree(&self) -> (r: &Tree)
        ensures
            r == &self.tree,
    {
        &self.tree
    }
}

/// The commit of `cs` with id `id`, if there is one.
pub open spec fn find_commit(cs: Seq<Commit>, id: Seq<u8>) -> Option<Commit> {
    if exists|i: int| 0 <= i < cs.len() && #[trigger] cs[i].id@ == id {
        Some(cs[choose|i: int| 0 <= i < cs.len() && #[trigger] cs[i].id@ == id])
    } else {
        None
    }
}

pub open spec fn ids_unique(cs: Seq<Commit>) -> bool {
    forall|i: int, j: int|
        0 <= i < cs.len() && 0 <= j < cs.len() && i != j ==> #[trigger] cs[i].id@ != #[trigger] cs[j].id@
}

/// The length of the root commit's id, which is all zero bytes.
pub const ROOT_COMMIT_ID_LENGTH: usize = 20;

/// The object store of a repository: its commits, and where its Git
/// repository lies when it is backed by Git.
#[derive(Debug)]
pub struct Store {
    git_repo_path: Option<String>,
    commits: Vec<Commit>,
}

impl Store {
    #[verifier::type_invariant]
    pub closed spec fn inv(self) -> bool {
        ids_unique(self.commits@)
    }

    /// The commits held, in the order they were written.
    pub closed spec fn commits(self) -> Seq<Commit> {
        self.commits@
    }

    /// Where the Git repository lies, for a store backed by Git.
    pub closed spec fn git_path(self) -> Option<Seq<char>> {
        match self.git_repo_path {
            Some(s) => Some(s@),
            None => None,
        }
    }

    /// A store that holds only the root commit: no parents, the empty tree.
    pub fn new(git_repo_path: Option<String>) -> (r: Store)
        ensures
            r.commits().len() == 1,
            r.commits()[0].parent_ids@.len() == 0,
            r.commits()[0].tree@ == Map::<Seq<char>, crate::tree::ValueView>::empty(),
            r.commits()[0].id@ == Seq::new(ROOT_COMMIT_ID_LENGTH as nat, |i: int| 0u8),
            r.git_path() == match git_repo_path {
                Some(s) => Some(s@),
                None => None::<Seq<char>>,
            },
    {
        let mut commits: Vec<Commit> = Vec::new();
        commits.push(Commit::new(Store::root_id(), Vec::new(), Tree::empty(), String::new()));
        Store { git_repo_path, commits }
    }

    fn root_id() -> (r: CommitId)
        ensures
            r@ == Seq::new(ROOT_COMMIT_ID_LENGTH as nat, |i: int| 0u8),
    {
        let mut bytes: Vec<u8> = Vec::new();
        let mut i: usize = 0;
        while i < ROOT_COMMIT_ID_LENGTH
            invariant
                i <= ROOT_COMMIT_ID_LENGTH,
                bytes@ == Seq::new(i as nat, |j: int| 0u8),
            decreases ROOT_COMMIT_ID_LENGTH - i,
        {
            bytes.push(0u8);
            i = i + 1;
            assert(bytes@ =~= Seq::new(i as nat, |j: int| 0u8));
        }
        CommitId::new(bytes)
    }

    /// The id of the root commit.
    pub fn root_commit_id(&self) -> (r: CommitId)
        ensures
            r@ == Seq::new(ROOT_COMMIT_ID_LENGTH as nat, |i: int| 0u8),
    {
        Store::root_id()
    }

    /// Whether the store is backed by Git.
    pub fn is_git_backed(&self) -> (r: bool)
        ensures
            r == self.git_path() is Some,
    {
        self.git_repo_path.is_some()
    }

    /// Where the Git repository lies, for a store backed by Git.
    pub fn git_repo_path(&self) -> (r: Option<&String>)
        ensures
            self.git_path() is Some <==> r is Some,
            r matches Some(s) ==> self.git_path() == Some(s@),
    {
        match &self.git_repo_path {
            Some(s) => Some(s),
            None => None,
        }
    }

    /// Writes a commit. A commit whose id the store already holds is not
    /// written again.
    pub fn add_commit(&mut self, commit: Commit) -> (r: bool)
        ensures
            r == (find_commit(old(self).commits(), commit.id@) is None),
            r ==> final(self).commits() == old(self).commits().push(commit),
            !r ==> final(self).commits() == old(self).commits(),
            final(self).git_path() == old(self).git_path(),
    {
        proof {
            use_type_invariant(&*self);
        }
        let found = self.get_commit(&commit.id);
        if found.is_ok() {
            return false;
        }
        let ghost old_cs = self.commits@;
        proof {
            assert forall|i: int, j: int|
                0 <= i < old_cs.len() + 1 && 0 <= j < old_cs.len() + 1 && i != j implies #[trigger] old_cs.push(commit)[i].id@
                != #[trigger] old_cs.push(commit)[j].id@ by {
                if i < old_cs.len() && j < old_cs.len() {
                } else if i < old_cs.len() {
                    assert(old_cs.push(commit)[i] == old_cs[i]);
                } else {
                    assert(old_cs.push(commit)[j] == old_cs[j]);
                }
            }
        }
        let mut commits = Vec::new();
        std::mem::swap(&mut commits, &mut self.commits);
        commits.push(commit);
        self.commits = commits;
        true
    }

    /// The commit with id `id`.
    pub fn get_commit(&self, id: &CommitId) -> (r: Result<&Commit, BackendError>)
        ensures
            r is Ok <==> find_commit(self.commits(), id@) is Some,
            r matches Ok(c) ==> find_commit(self.commits(), id@) == Some(*c),
    {
        proof {
            use_type_invariant(self);
        }
        let mut i: usize = 0;
        while i < self.commits.len()
            invariant
                ids_unique(self.commits@),
                i <= self.commits@.len(),
                forall|j: int| 0 <= j < i ==> self.commits@[j].id@ != id@,
            decreases self.commits@.len() - i,
        {
            if self.commits[i].id.same_as(id) {
                proof {
                    let cs = self.commits@;
                    let k = choose|k: int| 0 <= k < cs.len() && #[trigger] cs[k].id@ == id@;
                    assert(k == i);
                }
                return Ok(&self.commits[i]);
            }
            i = i + 1;
        }
        Err(BackendError::ObjectNotFound { object_type: "commit".to_string(), hash: id.hex() })
    }
}

} // verus!
