//! Subtree metadata kept as trailers in commit descriptions:
//!
//! ```text
//! Commit message here
//!
//! git-subtree-dir: path/to/subtree
//! git-subtree-mainline: <commit id in hex>
//! git-subtree-split: <commit id in hex>
//! ```
use vstd::prelude::*;
use crate::repo_path::RepoPathBuf;
use crate::repo_path::valid_path;
use crate::repo_path::chars_of;
use crate::store::CommitId;
use crate::store::hex_of;
use crate::store::is_hex;
use crate::store::decode_hex;
use crate::store::hex_value;
use crate::store::lemma_hex_round_trip;
use crate::trailer::Trailer;
use crate::trailer::parse_description_trailers;
use crate::trailer::description_trailers;
use crate::trailer::trim_end;
use crate::trailer::trimmed_end;
use crate::trailer::trim;
use crate::trailer::trim_start;
use crate::trailer::is_ws;
use crate::trailer::is_blank;
use crate::trailer::is_key_char;
use crate::trailer::key_len;
use crate::trailer::is_trailer_line;
use crate::trailer::line_trailer;
use crate::trailer::split_lines;
use crate::trailer::last_blank;
use crate::trailer::join_lines;
use crate::trailer::no_newline;
use crate::trailer::lemma_key_len_unique;
use crate::trailer::lemma_trim_end_append;
use crate::trailer::lemma_trim_end_prefix;
use crate::trailer::lemma_split_at_newline;
use crate::trailer::lemma_split_trimmed_join;
use crate::trailer::lemma_join_lines_append;
use crate::trailer::lemma_last_blank_before;

verus! {

pub open spec fn dir_key() -> Seq<char> {
    "git-subtree-dir"@
}

pub open spec fn mainline_key() -> Seq<char> {
    "git-subtree-mainline"@
}

pub open spec fn split_key() -> Seq<char> {
    "git-subtree-split"@
}

/// What metadata stands for: the subtree directory and the mainline and
/// split commit ids, each of them possibly unset.
pub type MetadataView = (Option<Seq<char>>, Option<Seq<u8>>, Option<Seq<u8>>);

/// Metadata with one more trailer read. A trailer with one of the three keys
/// sets its field where its value is well formed (a valid path, an even
/// number of hex digits) and is passed over otherwise; a later trailer
/// overrides an earlier one.
pub open spec fn with_trailer(m: MetadataView, t: (Seq<char>, Seq<char>)) -> MetadataView {
    if t.0 == dir_key() && valid_path(t.1) {
        (Some(t.1), m.1, m.2)
    } else if t.0 == mainline_key() && is_hex(t.1) {
        (m.0, Some(decode_hex(t.1)), m.2)
    } else if t.0 == split_key() && is_hex(t.1) {
        (m.0, m.1, Some(decode_hex(t.1)))
    } else {
        m
    }
}

/// The metadata that a sequence of trailers sets, read in order.
pub open spec fn metadata_of(ts: Seq<(Seq<char>, Seq<char>)>) -> MetadataView
    decreases ts.len(),
{
    if ts.len() == 0 {
        (None, None, None)
    } else {
        with_trailer(metadata_of(ts.drop_last()), ts.last())
    }
}

pub open spec fn is_subtree_key(k: Seq<char>) -> bool {
    k == dir_key() || k == mainline_key() || k == split_key()
}

pub open spec fn dir_line(d: Option<Seq<char>>) -> Seq<char> {
    match d {
        Some(p) => "git-subtree-dir: "@ + p + "\n"@,
        None => Seq::empty(),
    }
}

pub open spec fn mainline_line(id: Option<Seq<u8>>) -> Seq<char> {
    match id {
        Some(b) => "git-subtree-mainline: "@ + hex_of(b) + "\n"@,
        None => Seq::empty(),
    }
}

pub open spec fn split_line(id: Option<Seq<u8>>) -> Seq<char> {
    match id {
        Some(b) => "git-subtree-split: "@ + hex_of(b) + "\n"@,
        None => Seq::empty(),
    }
}

/// One trailer line for each field that is set, in the order directory,
/// mainline, split, each ending in a newline.
pub open spec fn trailers_text(m: MetadataView) -> Seq<char> {
    dir_line(m.0) + mainline_line(m.1) + split_line(m.2)
}

/// A description with the trailers of `m` appended: unchanged where `m` sets
/// nothing; else the description without its trailing whitespace, a blank
/// line and the trailers, or the trailers alone for a description that is
/// empty once trimmed.
pub open spec fn with_metadata(m: MetadataView, d: Seq<char>) -> Seq<char> {
    if trailers_text(m).len() == 0 {
        d
    } else if trim_end(d).len() == 0 {
        trailers_text(m)
    } else {
        trim_end(d) + "\n\n"@ + trailers_text(m)
    }
}

pub open spec fn opt_path_view(p: Option<RepoPathBuf>) -> Option<Seq<char>> {
    match p {
        Some(x) => Some(x@),
        None => None,
    }
}

pub open spec fn opt_id_view(p: Option<CommitId>) -> Option<Seq<u8>> {
    match p {
        Some(x) => Some(x@),
        None => None,
    }
}

/// A key and a value as a trailer line.
pub open spec fn trailer_line(k: Seq<char>, v: Seq<char>) -> Seq<char> {
    k + seq![':', ' '] + v
}

pub open spec fn opt_entry(k: Seq<char>, v: Option<Seq<char>>) -> Seq<(Seq<char>, Seq<char>)> {
    match v {
        Some(x) => seq![(k, x)],
        None => Seq::empty(),
    }
}

pub open spec fn opt_hex(v: Option<Seq<u8>>) -> Option<Seq<char>> {
    match v {
        Some(b) => Some(hex_of(b)),
        None => None,
    }
}

/// The trailers that metadata is written as, in order.
pub open spec fn entries_of(m: MetadataView) -> Seq<(Seq<char>, Seq<char>)> {
    opt_entry(dir_key(), m.0) + opt_entry(mainline_key(), opt_hex(m.1)) + opt_entry(
        split_key(),
        opt_hex(m.2),
    )
}

pub open spec fn lines_of(es: Seq<(Seq<char>, Seq<char>)>) -> Seq<Seq<char>> {
    es.map_values(|e: (Seq<char>, Seq<char>)| trailer_line(e.0, e.1))
}

pub open spec fn is_key(k: Seq<char>) -> bool {
    k.len() > 0 && forall|i: int| 0 <= i < k.len() ==> is_key_char(#[trigger] k[i])
}

/// A value that a trailer line carries unchanged: one line, with no
/// whitespace at either end.
pub open spec fn plain_value(v: Seq<char>) -> bool {
    no_newline(v) && trim(v) == v
}

proof fn lemma_trim_start_len(s: Seq<char>)
    ensures
        trim_start(s).len() <= s.len(),
    decreases s.len(),
{
    if s.len() > 0 && is_ws(s[0]) {
        lemma_trim_start_len(s.drop_first());
    }
}

proof fn lemma_plain_trim_end(v: Seq<char>)
    requires
        trim(v) == v,
    ensures
        trim_end(v) == v,
{
    lemma_trim_end_prefix(v);
    lemma_trim_start_len(trim_end(v));
    assert(v.subrange(0, v.len() as int) =~= v);
}

proof fn lemma_key_not_ws(k: Seq<char>, i: int)
    requires
        is_key(k),
        0 <= i < k.len(),
    ensures
        !is_ws(k[i]),
        k[i] != '\n',
        k[i] != ':',
{
    assert(is_key_char(k[i]));
}

/// A trailer line, and the same line with its end trimmed, read back as its
/// key and value.
proof fn lemma_line_reads_back(k: Seq<char>, v: Seq<char>)
    requires
        is_key(k),
        plain_value(v),
    ensures
        no_newline(trailer_line(k, v)),
        trim_end(trailer_line(k, v)).len() > 0,
        is_trailer_line(trailer_line(k, v)),
        is_trailer_line(trim_end(trailer_line(k, v))),
        !is_blank(trailer_line(k, v)),
        !is_blank(trim_end(trailer_line(k, v))),
        line_trailer(trailer_line(k, v)) == (k, v),
        line_trailer(trim_end(trailer_line(k, v))) == (k, v),
{
    let l = trailer_line(k, v);
    let n = k.len() as int;
    lemma_plain_trim_end(v);
    assert forall|i: int| 0 <= i < l.len() implies #[trigger] l[i] != '\n' by {
        if i < n {
            lemma_key_not_ws(k, i);
        } else if i >= n + 2 {
            assert(l[i] == v[i - n - 2]);
        }
    }
    lemma_key_not_ws(k, 0);
    assert(l[0] == k[0]);
    assert(key_len(l, n)) by {
        assert forall|i: int| 0 <= i < n implies is_key_char(#[trigger] l[i]) by {
            assert(l[i] == k[i]);
        }
    }
    assert(l.subrange(0, n) =~= k);
    let rest = l.subrange(n + 1, l.len() as int);
    assert(rest =~= seq![' '] + v);
    // the value: a space, then `v`
    if v.len() > 0 {
        lemma_trim_end_append(seq![' '], v);
        assert(trim_end(rest) == seq![' '] + v);
        assert((seq![' '] + v).drop_first() =~= v);
        assert(trim_start(seq![' '] + v) == trim_start(v));
        assert(trim(rest) == v);
        lemma_trim_end_append(k + seq![':', ' '], v);
        assert(k + seq![':', ' '] + v == l);
        assert(trim_end(l) == l);
    } else {
        assert(rest =~= seq![' ']);
        assert(seq![' '].drop_last() =~= Seq::<char>::empty());
        assert(is_ws(' '));
        assert(trim_end(rest) == trim_end(Seq::<char>::empty()));
        assert(trim_end(Seq::<char>::empty()) == Seq::<char>::empty());
        assert(trim_start(Seq::<char>::empty()) == Seq::<char>::empty());
        assert(trim(rest) =~= v);
        assert(l =~= k + seq![':', ' ']);
        assert(l.drop_last() =~= k + seq![':']);
        assert(l.last() == ' ');
        assert(trim_end(l) == trim_end(k + seq![':']));
        assert((k + seq![':']).last() == ':');
        assert(!is_ws(':'));
        assert(trim_end(k + seq![':']) == k + seq![':']);
        let t = k + seq![':'];
        assert(key_len(t, n)) by {
            assert forall|i: int| 0 <= i < n implies is_key_char(#[trigger] t[i]) by {
                assert(t[i] == k[i]);
            }
        }
        assert(t.subrange(0, n) =~= k);
        assert(t.subrange(n + 1, t.len() as int) =~= Seq::<char>::empty());
        let c = choose|c: int| key_len(t, c);
        lemma_key_len_unique(t, c, n);
        assert(t[0] == k[0]);
    }
    let c = choose|c: int| key_len(l, c);
    lemma_key_len_unique(l, c, n);
}

proof fn lemma_join_opt(k: Seq<char>, v: Option<Seq<char>>)
    ensures
        join_lines(lines_of(opt_entry(k, v))) == match v {
            Some(x) => k + seq![':', ' '] + x + seq!['\n'],
            None => Seq::<char>::empty(),
        },
{
    let ls = lines_of(opt_entry(k, v));
    match v {
        Some(x) => {
            assert(ls =~= seq![trailer_line(k, x)]);
            assert(ls.drop_last() =~= Seq::<Seq<char>>::empty());
            assert(join_lines(ls.drop_last()) == Seq::<char>::empty());
            assert(join_lines(ls) =~= k + seq![':', ' '] + x + seq!['\n']);
        },
        None => {
            assert(ls =~= Seq::<Seq<char>>::empty());
        },
    }
}

/// What the entries of metadata are, and that its trailers text joins their
/// lines.
proof fn lemma_entries(m: MetadataView)
    requires
        m.0 matches Some(p) ==> plain_value(p),
    ensures
        forall|i: int|
            0 <= i < entries_of(m).len() ==> is_key(#[trigger] entries_of(m)[i].0) && plain_value(
                entries_of(m)[i].1,
            ),
        trailers_text(m) == join_lines(lines_of(entries_of(m))),
        entries_of(m).len() <= 3,
        (m.0 is Some || m.1 is Some || m.2 is Some) ==> entries_of(m).len() > 0,
{
    lemma_keys();
    let es = entries_of(m);
    let a = opt_entry(dir_key(), m.0);
    let b = opt_entry(mainline_key(), opt_hex(m.1));
    let c = opt_entry(split_key(), opt_hex(m.2));
    assert forall|i: int| 0 <= i < es.len() implies is_key(#[trigger] es[i].0) && plain_value(es[i].1) by {
        if i < a.len() {
            assert(es[i] == a[i]);
        } else if i < a.len() + b.len() {
            assert(es[i] == b[i - a.len()]);
            lemma_hex_plain(m.1->Some_0);
        } else {
            assert(es[i] == c[i - a.len() - b.len()]);
            lemma_hex_plain(m.2->Some_0);
        }
    }
    let la = lines_of(a);
    let lb = lines_of(b);
    let lc = lines_of(c);
    assert(lines_of(es) =~= la + lb + lc);
    lemma_join_lines_append(la + lb, lc);
    lemma_join_lines_append(la, lb);
    lemma_join_opt(dir_key(), m.0);
    lemma_join_opt(mainline_key(), opt_hex(m.1));
    lemma_join_opt(split_key(), opt_hex(m.2));
    assert(join_lines(la) =~= dir_line(m.0));
    assert(join_lines(lb) =~= mainline_line(m.1));
    assert(join_lines(lc) =~= split_line(m.2));
}

/// Reading the entries of metadata back gives the metadata.
proof fn lemma_read_entries(m: MetadataView)
    requires
        m.0 matches Some(p) ==> valid_path(p),
    ensures
        metadata_of(entries_of(m)) == m,
{
    lemma_keys();
    let es = entries_of(m);
    if m.1 is Some {
        lemma_hex_round_trip(m.1->Some_0);
    }
    if m.2 is Some {
        lemma_hex_round_trip(m.2->Some_0);
    }
    reveal_with_fuel(metadata_of, 4);
    let e0 = Seq::<(Seq<char>, Seq<char>)>::empty();
    if es.len() == 0 {
        assert(m == (None::<Seq<char>>, None::<Seq<u8>>, None::<Seq<u8>>));
    } else if es.len() == 1 {
        assert(es.drop_last() =~= e0);
    } else if es.len() == 2 {
        assert(es.drop_last().drop_last() =~= e0);
    } else {
        assert(es.drop_last().drop_last().drop_last() =~= e0);
    }
}

/// Hexadecimal digits are carried unchanged by a trailer line.
proof fn lemma_hex_plain(b: Seq<u8>)
    ensures
        plain_value(hex_of(b)),
{
    lemma_hex_round_trip(b);
    let h = hex_of(b);
    assert forall|i: int| 0 <= i < h.len() implies #[trigger] h[i] != '\n' by {
        assert(hex_value(h[i]) >= 0);
    }
    if h.len() > 0 {
        assert(hex_value(h[h.len() - 1]) >= 0);
        assert(hex_value(h[0]) >= 0);
    } else {
        assert(h =~= Seq::<char>::empty());
    }
}

proof fn lemma_keys()
    ensures
        is_key(dir_key()),
        is_key(mainline_key()),
        is_key(split_key()),
        dir_key() != mainline_key(),
        dir_key() != split_key(),
        mainline_key() != split_key(),
        "git-subtree-dir: "@ == dir_key() + seq![':', ' '],
        "git-subtree-mainline: "@ == mainline_key() + seq![':', ' '],
        "git-subtree-split: "@ == split_key() + seq![':', ' '],
        "\n"@ == seq!['\n'],
        "\n\n"@ == seq!['\n', '\n'],
{
    reveal_strlit("git-subtree-dir");
    reveal_strlit("git-subtree-mainline");
    reveal_strlit("git-subtree-split");
    reveal_strlit("git-subtree-dir: ");
    reveal_strlit("git-subtree-mainline: ");
    reveal_strlit("git-subtree-split: ");
    reveal_strlit("\n");
    reveal_strlit("\n\n");
    assert("git-subtree-dir: "@ =~= dir_key() + seq![':', ' ']);
    assert("git-subtree-mainline: "@ =~= mainline_key() + seq![':', ' ']);
    assert("git-subtree-split: "@ =~= split_key() + seq![':', ' ']);
    assert("\n"@ =~= seq!['\n']);
    assert("\n\n"@ =~= seq!['\n', '\n']);
}

/// Metadata with at least one field set, added to a description that keeps
/// some text once its trailing whitespace is trimmed, is read back from the
/// result exactly, where the subtree directory fits on one line and has no
/// whitespace at either end.
/// The lines of a description with trailer lines appended after a blank
/// line: the description's own lines, the blank line, and the trailer lines
/// with the last one trimmed at its end.
proof fn lemma_result_lines(dd: Seq<char>, ls: Seq<Seq<char>>)
    requires
        ls.len() > 0,
        forall|i: int| 0 <= i < ls.len() ==> no_newline(#[trigger] ls[i]),
        trim_end(ls.last()).len() > 0,
    ensures
        split_lines(trim_end(dd + seq!['\n', '\n'] + join_lines(ls))) == split_lines(dd) + seq![
            Seq::<char>::empty(),
        ] + ls.update(ls.len() - 1, trim_end(ls.last())),
{
    let t = join_lines(ls);
    let tl = ls.last();
    assert(t =~= join_lines(ls.drop_last()) + (tl + seq!['\n']));
    assert((tl + seq!['\n']).drop_last() =~= tl);
    lemma_trim_end_append(join_lines(ls.drop_last()), tl + seq!['\n']);
    lemma_trim_end_append(dd + seq!['\n', '\n'], t);
    lemma_split_trimmed_join(ls);
    let z = Seq::<char>::empty();
    assert(trim_end(dd + seq!['\n', '\n'] + t) =~= dd + seq!['\n'] + (z + seq!['\n'] + trim_end(t)));
    lemma_split_at_newline(dd, z + seq!['\n'] + trim_end(t));
    lemma_split_at_newline(z, trim_end(t));
    assert(split_lines(z) == seq![z]);
}

/// The trailers of a description with metadata added are the entries of the
/// metadata.
proof fn lemma_trailers_of_result(m: MetadataView, d: Seq<char>)
    requires
        m.0 is Some || m.1 is Some || m.2 is Some,
        m.0 matches Some(p) ==> plain_value(p),
        trim_end(d).len() > 0,
    ensures
        description_trailers(with_metadata(m, d)) == entries_of(m),
{
    lemma_keys();
    lemma_entries(m);
    let es = entries_of(m);
    let ls = lines_of(es);
    assert forall|i: int| 0 <= i < ls.len() implies no_newline(#[trigger] ls[i]) by {
        lemma_line_reads_back(es[i].0, es[i].1);
    }
    lemma_line_reads_back(es[es.len() - 1].0, es[es.len() - 1].1);
    let r = with_metadata(m, d);
    assert(r == trim_end(d) + seq!['\n', '\n'] + join_lines(ls));
    lemma_result_lines(trim_end(d), ls);
    let ls2 = ls.update(ls.len() - 1, trim_end(ls.last()));
    let sd = split_lines(trim_end(d));
    let all = split_lines(trim_end(r));
    assert(all == sd + seq![Seq::<char>::empty()] + ls2);
    assert forall|i: int| 0 <= i < ls2.len() implies !is_blank(#[trigger] ls2[i]) && is_trailer_line(ls2[i])
        && line_trailer(ls2[i]) == es[i] by {
        lemma_line_reads_back(es[i].0, es[i].1);
    }
    lemma_last_blank_before(sd, ls2);
    let block = all.subrange(last_blank(all) + 1, all.len() as int);
    assert(block =~= ls2);
    assert(description_trailers(r) =~= es);
}

/// Metadata with at least one field set, added to a description that keeps
/// some text once its trailing whitespace is trimmed, is read back from the
/// result exactly, where the subtree directory fits on one line and has no
/// whitespace at either end.
pub proof fn lemma_metadata_round_trip(m: MetadataView, d: Seq<char>)
    requires
        m.0 is Some || m.1 is Some || m.2 is Some,
        m.0 matches Some(p) ==> valid_path(p) && plain_value(p),
        trim_end(d).len() > 0,
    ensures
        metadata_of(description_trailers(with_metadata(m, d))) == m,
{
    lemma_trailers_of_result(m, d);
    lemma_read_entries(m);
}

/// Whether two strings hold the same characters.
pub fn str_equal(a: &str, b: &str) -> (r: bool)
    ensures
        r == (a@ == b@),
{
    let x = chars_of(a);
    let y = chars_of(b);
    if x.len() != y.len() {
        return false;
    }
    let mut i: usize = 0;
    while i < x.len()
        invariant
            x@ == a@,
            y@ == b@,
            x@.len() == y@.len(),
            i <= x@.len(),
            forall|j: int| 0 <= j < i ==> x@[j] == y@[j],
        decreases x@.len() - i,
    {
        if x[i] != y[i] {
            assert(a@[i as int] != b@[i as int]);
            return false;
        }
        i = i + 1;
    }
    assert(x@ =~= y@);
    true
}

/// Subtree metadata of a commit: where the subtree lies, and the commits a
/// split or a rejoin came from.
#[derive(Debug, Clone, PartialEq, Eq)]
pub struct SubtreeMetadata {
    /// The subtree's directory.
    pub subtree_dir: Option<RepoPathBuf>,
    /// In a split commit, the mainline commit it was made from.
    pub mainline_commit: Option<CommitId>,
    /// In a rejoin commit, the split commit merged back.
    pub split_commit: Option<CommitId>,
}

impl View for SubtreeMetadata {
    type V = MetadataView;

    open spec fn view(&self) -> MetadataView {
        (
            opt_path_view(self.subtree_dir),
            opt_id_view(self.mainline_commit),
            opt_id_view(self.split_commit),
        )
    }
}

impl SubtreeMetadata {
    /// Metadata with no field set.
    pub fn new() -> (r: SubtreeMetadata)
        ensures
            r@ == (None::<Seq<char>>, None::<Seq<u8>>, None::<Seq<u8>>),
    {
        SubtreeMetadata { subtree_dir: None, mainline_commit: None, split_commit: None }
    }

    /// Metadata with only the subtree directory set.
    pub fn with_dir(dir: RepoPathBuf) -> (r: SubtreeMetadata)
        ensures
            r@ == (Some(dir@), None::<Seq<u8>>, None::<Seq<u8>>),
    {
        SubtreeMetadata { subtree_dir: Some(dir), mainline_commit: None, split_commit: None }
    }

    /// Reads the metadata from the trailers of a description.
    pub fn parse(description: &str) -> (r: SubtreeMetadata)
        ensures
            r@ == metadata_of(description_trailers(description@)),
    {
        let trailers = parse_description_trailers(description);
        let ghost ts = trailers@.map_values(|t: Trailer| t@);
        let mut metadata = SubtreeMetadata::new();
        let mut i: usize = 0;
        while i < trailers.len()
            invariant
                ts == trailers@.map_values(|t: Trailer| t@),
                i <= trailers@.len(),
                metadata@ == metadata_of(ts.subrange(0, i as int)),
            decreases trailers@.len() - i,
        {
            let t = &trailers[i];
            let key = t.key.as_str();
            let value = t.value.as_str();
            proof {
                assert(ts.subrange(0, i + 1).drop_last() =~= ts.subrange(0, i as int));
                assert(ts[i as int] == (key@, value@));
            }
            if str_equal(key, "git-subtree-dir") {
                if let Ok(path) = RepoPathBuf::from_internal_string(value) {
                    metadata.subtree_dir = Some(path);
                }
            } else if str_equal(key, "git-subtree-mainline") {
                if let Some(id) = CommitId::try_from_hex(value) {
                    metadata.mainline_commit = Some(id);
                }
            } else if str_equal(key, "git-subtree-split") {
                if let Some(id) = CommitId::try_from_hex(value) {
                    metadata.split_commit = Some(id);
                }
            }
            i = i + 1;
        }
        assert(ts.subrange(0, ts.len() as int) =~= ts);
        metadata
    }

    /// The trailer lines of the fields that are set.
    pub fn format_trailers(&self) -> (r: String)
        ensures
            r@ == trailers_text(self@),
    {
        let mut out = String::new();
        if let Some(dir) = &self.subtree_dir {
            out.append("git-subtree-dir: ");
            out.append(dir.as_internal_file_string());
            out.append("\n");
        }
        if let Some(id) = &self.mainline_commit {
            out.append("git-subtree-mainline: ");
            out.append(id.hex().as_str());
            out.append("\n");
        }
        if let Some(id) = &self.split_commit {
            out.append("git-subtree-split: ");
            out.append(id.hex().as_str());
            out.append("\n");
        }
        assert(out@ =~= trailers_text(self@));
        out
    }

    /// The description with the trailers appended after one blank line.
    pub fn add_to_description(&self, description: &str) -> (r: String)
        ensures
            r@ == with_metadata(self@, description@),
    {
        let trailers = self.format_trailers();
        if trailers.as_str().is_empty() {
            return description.to_owned();
        }
        let cs = chars_of(description);
        let n = trimmed_end(&cs, 0, cs.len());
        proof {
            assert(cs@.subrange(0, cs@.len() as int) =~= description@);
        }
        if n == 0 {
            return trailers;
        }
        let mut out = description.substring_char(0, n).to_owned();
        out.append("\n\n");
        out.append(trailers.as_str());
        out
    }

    /// Whether a description has a trailer with one of the three keys.
    pub fn has_metadata(description: &str) -> (r: bool)
        ensures
            r == exists|i: int|
                0 <= i < description_trailers(description@).len() && is_subtree_key(
                    #[trigger] description_trailers(description@)[i].0,
                ),
    {
        let trailers = parse_description_trailers(description);
        let ghost ts = trailers@.map_values(|t: Trailer| t@);
        let mut i: usize = 0;
        while i < trailers.len()
            invariant
                ts == trailers@.map_values(|t: Trailer| t@),
                ts == description_trailers(description@),
                i <= trailers@.len(),
                forall|j: int| 0 <= j < i ==> !is_subtree_key(#[trigger] ts[j].0),
            decreases trailers@.len() - i,
        {
            let key = trailers[i].key.as_str();
            assert(ts[i as int].0 == key@);
            if str_equal(key, "git-subtree-dir") || str_equal(key, "git-subtree-mainline") || str_equal(
                key,
                "git-subtree-split",
            ) {
                return true;
            }
            i = i + 1;
        }
        false
    }

    /// Whether no field is set.
    pub fn is_empty(&self) -> (r: bool)
        ensures
            r == (self@ == (None::<Seq<char>>, None::<Seq<u8>>, None::<Seq<u8>>)),
    {
        self.subtree_dir.is_none() && self.mainline_commit.is_none() && self.split_commit.is_none()
    }
}

impl Default for SubtreeMetadata {
    fn default() -> (r: SubtreeMetadata)
        ensures
            r@ == (None::<Seq<char>>, None::<Seq<u8>>, None::<Seq<u8>>),
    {
        SubtreeMetadata::new()
    }
}

} // verus!
