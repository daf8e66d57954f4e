//! Tree objects: a payload of entries `<mode> <name>\0<20-byte address>`.
use crate::bytes::{
    find_byte, find_byte_in, lemma_find_byte, lemma_find_byte_at, range_equals, starts_with,
    NEWLINE, SPACE,
};
use crate::hashing::{hex_chars, hex_string};
use crate::error::GitError;
use crate::obj::{kind_bytes, kind_word, Obj, Type};
use vstd::prelude::*;
use vstd::slice::{slice_subrange, slice_to_vec};
use vstd::utf8::{encode_utf8, is_ascii_chars, is_ascii_chars_encode_utf8};

verus! {

/// The tab byte, which separates an entry's address from its name in a listing.
pub const TAB: u8 = 9;

/// Length of the raw binary address stored in each tree entry.
pub const RAW_ADDRESS_LEN: usize = 20;

/// One entry of a tree: file mode, name, and the raw address of the child.
#[derive(Debug, PartialEq, Eq)]
pub struct TreeEntry {
    pub mode: Vec<u8>,
    pub name: Vec<u8>,
    pub sha: Vec<u8>,
}

/// A tree entry as byte sequences.
pub struct EntryView {
    pub mode: Seq<u8>,
    pub name: Seq<u8>,
    pub sha: Seq<u8>,
}

impl View for TreeEntry {
    type V = EntryView;

    open spec fn view(&self) -> EntryView {
        EntryView { mode: self.mode@, name: self.name@, sha: self.sha@ }
    }
}

/// The views of a sequence of entries.
pub open spec fn entry_views(v: Seq<TreeEntry>) -> Seq<EntryView> {
    v.map_values(|e: TreeEntry| e@)
}

/// An ASCII decimal digit.
pub open spec fn is_digit(c: u8) -> bool {
    48 <= c <= 57
}

/// A mode is a non-empty run of ASCII digits.
pub open spec fn mode_ok(m: Seq<u8>) -> bool {
    m.len() > 0 && forall|i: int| 0 <= i < m.len() ==> is_digit(#[trigger] m[i])
}

/// An entry that the grammar can carry: a digit mode, a name without NUL,
/// and a twenty-byte address.
pub open spec fn entry_ok(e: EntryView) -> bool {
    &&& mode_ok(e.mode)
    &&& forall|i: int| 0 <= i < e.name.len() ==> #[trigger] e.name[i] != 0u8
    &&& e.sha.len() == RAW_ADDRESS_LEN
}

/// The bytes of one entry.
pub open spec fn entry_bytes(e: EntryView) -> Seq<u8> {
    e.mode + seq![SPACE] + e.name + seq![0u8] + e.sha
}

/// The payload of a tree holding `es`, in order.
pub open spec fn tree_bytes(es: Seq<EntryView>) -> Seq<u8>
    decreases es.len(),
{
    if es.len() == 0 {
        Seq::empty()
    } else {
        entry_bytes(es[0]) + tree_bytes(es.drop_first())
    }
}

/// The entries of a tree payload, in on-disk order, or `None` when the
/// payload breaks the entry grammar.
pub open spec fn parse_entries(p: Seq<u8>) -> Option<Seq<EntryView>>
    decreases p.len(),
{
    if p.len() == 0 {
        Some(Seq::empty())
    } else {
        match find_byte(p, SPACE) {
            None => None,
            Some(sp) => match find_byte(p.subrange(sp + 1, p.len() as int), 0u8) {
                None => None,
                Some(n) => {
                    let nul = sp + 1 + n;
                    if 0 <= sp && 0 <= n && nul + 1 + RAW_ADDRESS_LEN <= p.len() {
                        let e = EntryView {
                            mode: p.subrange(0, sp),
                            name: p.subrange(sp + 1, nul),
                            sha: p.subrange(nul + 1, nul + 1 + RAW_ADDRESS_LEN),
                        };
                        if !mode_ok(e.mode) {
                            None
                        } else {
                            match parse_entries(p.subrange(nul + 1 + RAW_ADDRESS_LEN, p.len() as int)) {
                                None => None,
                                Some(rest) => Some(seq![e] + rest),
                            }
                        }
                    } else {
                        None
                    }
                },
            },
        }
    }
}

/// Prefixes `acc` to a parse result.
pub open spec fn prepend(acc: Seq<EntryView>, o: Option<Seq<EntryView>>) -> Option<Seq<EntryView>> {
    match o {
        Some(rest) => Some(acc + rest),
        None => None,
    }
}

/// Whether `s[start..end]` is a non-empty run of digits.
fn digits_in(s: &[u8], start: usize, end: usize) -> (r: bool)
    requires
        start <= end <= s@.len(),
    ensures
        r == mode_ok(s@.subrange(start as int, end as int)),
{
    if start == end {
        return false;
    }
    let mut i = start;
    while i < end
        invariant
            start <= i <= end <= s@.len(),
            forall|j: int| start <= j < i ==> is_digit(#[trigger] s@[j]),
        decreases end - i,
    {
        if s[i] < 48 || s[i] > 57 {
            assert(!is_digit(s@.subrange(start as int, end as int)[i - start]));
            return false;
        }
        i = i + 1;
    }
    assert forall|j: int| 0 <= j < end - start implies is_digit(
        #[trigger] s@.subrange(start as int, end as int)[j],
    ) by {
        assert(s@.subrange(start as int, end as int)[j] == s@[start + j]);
    }
    true
}

/// Parses a tree payload into its entries, in on-disk order.
pub fn parse_tree(p: &[u8]) -> (r: Option<Vec<TreeEntry>>)
    ensures
        match parse_entries(p@) {
            Some(es) => r matches Some(v) && entry_views(v@) == es,
            None => r is None,
        },
{
    let mut acc: Vec<TreeEntry> = Vec::new();
    let mut pos: usize = 0;
    assert(p@.subrange(0, p@.len() as int) =~= p@);
    assert(entry_views(acc@) =~= Seq::<EntryView>::empty());
    while pos < p.len()
        invariant
            pos <= p@.len(),
            parse_entries(p@) == prepend(entry_views(acc@), parse_entries(p@.subrange(pos as int, p@.len() as int))),
        decreases p@.len() - pos,
    {
        let ghost q = p@.subrange(pos as int, p@.len() as int);
        let sp = match find_byte_in(p, SPACE, pos, p.len()) {
            None => return None,
            Some(i) => i,
        };
        let ghost q2 = q.subrange(sp - pos + 1, q.len() as int);
        assert(q2 =~= p@.subrange(sp + 1, p@.len() as int));
        let nul = match find_byte_in(p, 0u8, sp + 1, p.len()) {
            None => return None,
            Some(i) => i,
        };
        if p.len() - nul < 1 + RAW_ADDRESS_LEN {
            return None;
        }
        if !digits_in(p, pos, sp) {
            assert(q.subrange(0, sp - pos) =~= p@.subrange(pos as int, sp as int));
            return None;
        }
        let e = TreeEntry {
            mode: slice_to_vec(slice_subrange(p, pos, sp)),
            name: slice_to_vec(slice_subrange(p, sp + 1, nul)),
            sha: slice_to_vec(slice_subrange(p, nul + 1, nul + 1 + RAW_ADDRESS_LEN)),
        };
        let ghost next = nul + 1 + RAW_ADDRESS_LEN;
        proof {
            assert(q.subrange(0, sp - pos) =~= e.mode@);
            assert(q.subrange(sp - pos + 1, nul - pos) =~= e.name@);
            assert(q.subrange(nul - pos + 1, nul - pos + 1 + RAW_ADDRESS_LEN) =~= e.sha@);
            assert(q.subrange(next - pos, q.len() as int) =~= p@.subrange(next, p@.len() as int));
            assert(entry_views(acc@.push(e)) =~= entry_views(acc@) + seq![e@]);
            match parse_entries(p@.subrange(next, p@.len() as int)) {
                Some(rest) => {
                    assert(entry_views(acc@) + (seq![e@] + rest) =~= entry_views(acc@) + seq![e@] + rest);
                },
                None => {},
            }
        }
        acc.push(e);
        pos = nul + 1 + RAW_ADDRESS_LEN;
    }
    assert(p@.subrange(pos as int, p@.len() as int) =~= Seq::<u8>::empty());
    assert(entry_views(acc@) + Seq::<EntryView>::empty() =~= entry_views(acc@));
    Some(acc)
}

/// A parsed tree payload is exactly the bytes of its entries, in order,
/// and each entry is one the grammar can carry.
pub proof fn lemma_parse_entries_sound(p: Seq<u8>)
    ensures
        parse_entries(p) matches Some(es) ==> tree_bytes(es) == p && forall|i: int|
            0 <= i < es.len() ==> entry_ok(#[trigger] es[i]),
    decreases p.len(),
{
    if p.len() > 0 {
        if let Some(es) = parse_entries(p) {
            let sp = find_byte(p, SPACE)->0;
            let sub = p.subrange(sp + 1, p.len() as int);
            let n = find_byte(sub, 0u8)->0;
            let nul = sp + 1 + n;
            let next = nul + 1 + RAW_ADDRESS_LEN;
            let tail = p.subrange(next, p.len() as int);
            lemma_find_byte(p, SPACE);
            lemma_find_byte(sub, 0u8);
            lemma_parse_entries_sound(tail);
            let e = es[0];
            let rest = parse_entries(tail)->0;
            assert(es.drop_first() =~= rest);
            assert forall|i: int| 0 <= i < e.name.len() implies #[trigger] e.name[i] != 0u8 by {
                assert(e.name[i] == sub[i]);
            }
            assert(p[sp] == SPACE);
            assert(sub[n] == 0u8);
            assert(entry_bytes(e) =~= p.subrange(0, next));
            assert(p =~= p.subrange(0, next) + tail);
            assert forall|i: int| 0 <= i < es.len() implies entry_ok(#[trigger] es[i]) by {
                if i > 0 {
                    assert(es[i] == rest[i - 1]);
                }
            }
        }
    }
}

/// Parsing the bytes of well-formed entries gives back those entries.
pub proof fn lemma_parse_tree_bytes(es: Seq<EntryView>)
    requires
        forall|i: int| 0 <= i < es.len() ==> entry_ok(#[trigger] es[i]),
    ensures
        parse_entries(tree_bytes(es)) == Some(es),
    decreases es.len(),
{
    if es.len() == 0 {
        assert(es =~= Seq::<EntryView>::empty());
    } else {
        let e = es[0];
        let rest = es.drop_first();
        assert forall|i: int| 0 <= i < rest.len() implies entry_ok(#[trigger] rest[i]) by {
            assert(rest[i] == es[i + 1]);
        }
        lemma_parse_tree_bytes(rest);
        assert(entry_ok(es[0]));
        let p = tree_bytes(es);
        let sp = e.mode.len() as int;
        assert(p[sp] == SPACE);
        assert forall|j: int| 0 <= j < sp implies p[j] != SPACE by {
            assert(p[j] == e.mode[j]);
            assert(is_digit(e.mode[j]));
        }
        lemma_find_byte_at(p, SPACE, sp);
        let sub = p.subrange(sp + 1, p.len() as int);
        let n = e.name.len() as int;
        assert(sub[n] == 0u8);
        assert forall|j: int| 0 <= j < n implies sub[j] != 0u8 by {
            assert(sub[j] == e.name[j]);
        }
        lemma_find_byte_at(sub, 0u8, n);
        let nul = sp + 1 + n;
        let next = nul + 1 + RAW_ADDRESS_LEN;
        assert(p.subrange(0, sp) =~= e.mode);
        assert(p.subrange(sp + 1, nul) =~= e.name);
        assert(p.subrange(nul + 1, next) =~= e.sha);
        assert(p.subrange(next, p.len() as int) =~= tree_bytes(rest));
        assert(seq![e] + rest =~= es);
    }
}

/// Encodes entries as a tree payload, in the order given.
pub fn encode_tree(entries: &Vec<TreeEntry>) -> (r: Vec<u8>)
    ensures
        r@ == tree_bytes(entry_views(entries@)),
{
    let mut out: Vec<u8> = Vec::new();
    let mut i: usize = 0;
    proof {
        let vs = entry_views(entries@);
        assert(vs.subrange(0, vs.len() as int) =~= vs);
        assert(out@ + tree_bytes(vs) =~= tree_bytes(vs));
    }
    while i < entries.len()
        invariant
            i <= entries@.len(),
            out@ + tree_bytes(entry_views(entries@).subrange(i as int, entries@.len() as int))
                == tree_bytes(entry_views(entries@)),
        decreases entries@.len() - i,
    {
        let ghost vs = entry_views(entries@);
        let ghost old_out = out@;
        let e = &entries[i];
        out.extend_from_slice(e.mode.as_slice());
        out.push(SPACE);
        out.extend_from_slice(e.name.as_slice());
        out.push(0u8);
        out.extend_from_slice(e.sha.as_slice());
        proof {
            let tl = vs.subrange(i as int, vs.len() as int);
            assert(tl[0] == e@);
            assert(tl.drop_first() =~= vs.subrange(i + 1, vs.len() as int));
            assert(out@ =~= old_out + entry_bytes(e@));
            assert(old_out + tree_bytes(tl) =~= out@ + tree_bytes(tl.drop_first()));
        }
        i = i + 1;
    }
    proof {
        let vs = entry_views(entries@);
        assert(vs.subrange(i as int, vs.len() as int) =~= Seq::<EntryView>::empty());
        assert(out@ + Seq::<u8>::empty() =~= out@);
    }
    out
}

/// A mode left-padded with `'0'` to six characters, as listings show it.
pub open spec fn pad_mode(m: Seq<u8>) -> Seq<u8> {
    if m.len() < 6 {
        Seq::new((6 - m.len()) as nat, |i: int| 48u8) + m
    } else {
        m
    }
}

/// The type digits of a directory's padded mode: `04`.
pub open spec fn dir_type() -> Seq<u8> {
    seq![48u8, 52u8]
}

/// The type digits of a submodule commit's padded mode: `16`.
pub open spec fn gitlink_type() -> Seq<u8> {
    seq![49u8, 54u8]
}

/// The kind of object an entry with mode `m` names, read from the type
/// digits that open its padded mode: a tree for a directory (`04`), a
/// commit for a submodule (`16`), and a blob otherwise.
pub open spec fn child_kind(m: Seq<u8>) -> Type {
    if starts_with(pad_mode(m), dir_type()) {
        Type::Tree
    } else if starts_with(pad_mode(m), gitlink_type()) {
        Type::Commit
    } else {
        Type::Blob
    }
}

/// One line of a tree listing: `<mode> <kind> <hex address>\t<name>`.
pub open spec fn entry_line(e: EntryView) -> Seq<u8> {
    pad_mode(e.mode) + seq![SPACE] + kind_word(child_kind(e.mode)) + seq![SPACE] + encode_utf8(
        hex_chars(e.sha),
    ) + seq![TAB] + e.name
}

/// The lines of all entries, joined by newlines.
pub open spec fn listing(es: Seq<EntryView>) -> Seq<u8>
    decreases es.len(),
{
    if es.len() == 0 {
        Seq::empty()
    } else if es.len() == 1 {
        entry_line(es[0])
    } else {
        listing(es.drop_last()) + seq![NEWLINE] + entry_line(es.last())
    }
}

/// The mode `m` left-padded to six characters.
fn padded_mode(m: &[u8]) -> (r: Vec<u8>)
    ensures
        r@ == pad_mode(m@),
{
    let mut out: Vec<u8> = Vec::new();
    let mut k = m.len();
    while k < 6
        invariant
            m@.len() <= k,
            k <= 6 || k == m@.len(),
            out@ == Seq::new((k - m@.len()) as nat, |i: int| 48u8),
        decreases 6 - k,
    {
        out.push(48u8);
        k = k + 1;
        assert(out@ =~= Seq::new((k - m@.len()) as nat, |i: int| 48u8));
    }
    out.extend_from_slice(m);
    if m.len() >= 6 {
        assert(out@ =~= m@);
    } else {
        assert(out@ =~= pad_mode(m@));
    }
    out
}

/// Appends the listing line of `e` to `out`.
fn push_entry_line(out: &mut Vec<u8>, e: &TreeEntry)
    ensures
        final(out)@ == old(out)@ + entry_line(e@),
{
    let pm = padded_mode(e.mode.as_slice());
    let dir = vec![48u8, 52u8];
    let link = vec![49u8, 54u8];
    assert(pm@.len() >= 6);
    let kind = if range_equals(pm.as_slice(), 0, 2, dir.as_slice()) {
        Type::Tree
    } else if range_equals(pm.as_slice(), 0, 2, link.as_slice()) {
        Type::Commit
    } else {
        Type::Blob
    };
    assert(pm@.subrange(0, pm@.len() as int) =~= pm@);
    let hex = hex_string(e.sha.as_slice());
    out.extend_from_slice(pm.as_slice());
    out.push(SPACE);
    out.extend_from_slice(kind_bytes(kind).as_slice());
    out.push(SPACE);
    out.extend_from_slice(hex.as_str().as_bytes());
    out.push(TAB);
    out.extend_from_slice(e.name.as_slice());
    assert(final(out)@ =~= old(out)@ + entry_line(e@));
}

/// The listing of a tree's entries: one line per entry, in order.
pub fn tree_listing(entries: &Vec<TreeEntry>) -> (r: Vec<u8>)
    ensures
        r@ == listing(entry_views(entries@)),
{
    let mut out: Vec<u8> = Vec::new();
    let mut i: usize = 0;
    while i < entries.len()
        invariant
            i <= entries@.len(),
            out@ == listing(entry_views(entries@).subrange(0, i as int)),
        decreases entries@.len() - i,
    {
        let ghost vs = entry_views(entries@);
        if i > 0 {
            out.push(NEWLINE);
        }
        push_entry_line(&mut out, &entries[i]);
        proof {
            let pre = vs.subrange(0, i + 1);
            assert(pre.drop_last() =~= vs.subrange(0, i as int));
            assert(pre.last() == entries@[i as int]@);
            if i == 0 {
                assert(out@ =~= listing(pre));
            } else {
                assert(out@ =~= listing(pre));
            }
        }
        i = i + 1;
    }
    assert(entry_views(entries@).subrange(0, i as int) =~= entry_views(entries@));
    out
}

/// A tree: a directory listing stored as a payload of entries.
pub struct Tree {
    content: Vec<u8>,
}

impl Tree {
    /// A tree with the given payload.
    pub fn new(content: Vec<u8>) -> (r: Tree)
        ensures
            r.payload() == content@,
    {
        Tree { content }
    }

    /// The entries of the tree, in on-disk order.
    pub fn entries(&self) -> (r: Result<Vec<TreeEntry>, GitError>)
        ensures
            match parse_entries(self.payload()) {
                Some(es) => r matches Ok(v) && entry_views(v@) == es,
                None => r matches Err(e) && e == GitError::MalformedTree,
            },
    {
        match parse_tree(self.content.as_slice()) {
            Some(v) => Ok(v),
            None => Err(GitError::MalformedTree),
        }
    }
}

impl Obj for Tree {
    open spec fn kind(&self) -> Type {
        Type::Tree
    }

    closed spec fn payload(&self) -> Seq<u8> {
        self.content@
    }

    fn to_string(&self) -> (r: Result<String, GitError>) {
        crate::obj::render(Type::Tree, self.content.as_slice())
    }

    fn obj_type(&self) -> (r: Type) {
        Type::Tree
    }

    fn size(&self) -> (r: usize) {
        self.content.len()
    }

    fn content(&self) -> (r: &Vec<u8>) {
        &self.content
    }

    fn parent(&self) -> (r: Option<String>) {
        None
    }
}

/// How many bytes of `s` equal `b`.
pub open spec fn count_byte(s: Seq<u8>, b: u8) -> nat
    decreases s.len(),
{
    if s.len() == 0 {
        0
    } else {
        count_byte(s.drop_last(), b) + if s.last() == b {
            1nat
        } else {
            0nat
        }
    }
}

/// Counting over a concatenation adds up.
proof fn lemma_count_concat(a: Seq<u8>, c: Seq<u8>, b: u8)
    ensures
        count_byte(a + c, b) == count_byte(a, b) + count_byte(c, b),
    decreases c.len(),
{
    if c.len() == 0 {
        assert(a + c =~= a);
    } else {
        assert((a + c).drop_last() =~= a + c.drop_last());
        lemma_count_concat(a, c.drop_last(), b);
    }
}

/// A sequence without `b` counts none.
proof fn lemma_count_none(s: Seq<u8>, b: u8)
    requires
        forall|i: int| 0 <= i < s.len() ==> #[trigger] s[i] != b,
    ensures
        count_byte(s, b) == 0,
    decreases s.len(),
{
    if s.len() > 0 {
        let d = s.drop_last();
        assert forall|i: int| 0 <= i < d.len() implies #[trigger] d[i] != b by {
            assert(d[i] == s[i]);
        }
        lemma_count_none(d, b);
    }
}

/// Whether `s` holds no newline.
pub open spec fn no_newline(s: Seq<u8>) -> bool {
    forall|i: int| 0 <= i < s.len() ==> #[trigger] s[i] != NEWLINE
}

/// The line of an entry whose mode and name hold no newline holds none.
proof fn lemma_entry_line_single(e: EntryView)
    requires
        no_newline(e.mode),
        no_newline(e.name),
    ensures
        count_byte(entry_line(e), NEWLINE) == 0,
{
    let h = hex_chars(e.sha);
    crate::hashing::lemma_hex_chars(e.sha);
    assert(is_ascii_chars(h)) by {
        assert forall|i: int| 0 <= i < h.len() implies '\0' <= #[trigger] h[i] <= '\u{7f}' by {
            assert(crate::hashing::is_hex_char(h[i]));
        }
    }
    is_ascii_chars_encode_utf8(h);
    let hb = encode_utf8(h);
    assert forall|i: int| 0 <= i < hb.len() implies #[trigger] hb[i] != NEWLINE by {
        assert(hb[i] == h[i] as u8);
        assert(crate::hashing::is_hex_char(h[i]));
    }
    let pm = pad_mode(e.mode);
    assert forall|i: int| 0 <= i < pm.len() implies #[trigger] pm[i] != NEWLINE by {
        if e.mode.len() < 6 && i < 6 - e.mode.len() {
        } else if e.mode.len() < 6 {
            assert(pm[i] == e.mode[i - (6 - e.mode.len())]);
        }
    }
    let kw = kind_word(child_kind(e.mode));
    let l = entry_line(e);
    assert forall|i: int| 0 <= i < l.len() implies #[trigger] l[i] != NEWLINE by {
        let a = pm.len() as int;
        let k = a + 1 + kw.len();
        let x = k + 1 + hb.len();
        if i < a {
            assert(l[i] == pm[i]);
        } else if i == a {
        } else if i < k {
            assert(l[i] == kw[i - a - 1]);
        } else if i == k {
        } else if i < x {
            assert(l[i] == hb[i - k - 1]);
        } else if i == x {
        } else {
            assert(l[i] == e.name[i - x - 1]);
        }
    }
    lemma_count_none(l, NEWLINE);
}

/// A tree listing has one line per entry, in order: for entries whose modes
/// and names hold no newline, a listing of `n > 0` entries holds exactly
/// `n - 1` newlines, each separating the lines of two neighbouring entries.
pub proof fn lemma_listing_lines(es: Seq<EntryView>)
    requires
        forall|i: int| 0 <= i < es.len() ==> no_newline(#[trigger] es[i].mode) && no_newline(es[i].name),
    ensures
        es.len() > 0 ==> count_byte(listing(es), NEWLINE) == es.len() - 1,
    decreases es.len(),
{
    if es.len() == 1 {
        lemma_entry_line_single(es[0]);
    } else if es.len() > 1 {
        let pre = es.drop_last();
        assert forall|i: int| 0 <= i < pre.len() implies no_newline(#[trigger] pre[i].mode) && no_newline(pre[i].name) by {
            assert(pre[i] == es[i]);
        }
        lemma_listing_lines(pre);
        lemma_entry_line_single(es.last());
        lemma_count_concat(listing(pre), seq![NEWLINE], NEWLINE);
        lemma_count_concat(listing(pre) + seq![NEWLINE], entry_line(es.last()), NEWLINE);
        assert(count_byte(seq![NEWLINE], NEWLINE) == 1) by {
            let one = seq![NEWLINE];
            assert(one.drop_last() =~= Seq::<u8>::empty());
            assert(one.last() == NEWLINE);
            assert(count_byte(one.drop_last(), NEWLINE) == 0);
        }
    }
}

} // verus!
