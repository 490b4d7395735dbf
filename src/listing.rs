//! The directory listing written beside an archived directory: a sorted,
//! depth-limited tree of its entries with sizes and modification times,
//! rendered from a snapshot of the directory.
use crate::text::{human_size, size_text, pad_left, pad_left_str, pad_right, pad_right_str};
use crate::timestamp::Timestamp;
use vstd::prelude::*;

verus! {

broadcast use vstd::std_specs::vec::group_vec_axioms, vstd::seq::group_seq_axioms;

/// One entry of a directory snapshot: a file with its length, or a directory
/// with its entries.
pub struct Node {
    pub name: String,
    pub is_dir: bool,
    pub len: u64,
    pub modified: Timestamp,
    pub children: Vec<Node>,
}

/// Byte size of an entry: a file's length, or the sum over everything a
/// directory holds, hidden entries included.
pub open spec fn total_size(n: Node) -> nat
    decreases n,
{
    if n.is_dir {
        sizes_sum(n.children@)
    } else {
        n.len as nat
    }
}

pub open spec fn sizes_sum(s: Seq<Node>) -> nat
    decreases s,
{
    if s.len() == 0 {
        0
    } else {
        sizes_sum(s.drop_last()) + total_size(s.last())
    }
}


/// Entries whose name starts with a dot are hidden from the listing.
pub open spec fn is_hidden(name: Seq<char>) -> bool {
    name.len() > 0 && name[0] == '.'
}

/// The lines of a listing of the entries `s` at `depth`, as (depth, entry)
/// pairs in the order they are written. Nothing is listed below `max_depth`,
/// and a hidden entry is left out together with everything it holds.
pub open spec fn listing_lines(s: Seq<Node>, depth: nat, max_depth: nat) -> Seq<(nat, Node)>
    decreases s,
{
    if depth > max_depth || s.len() == 0 {
        Seq::empty()
    } else {
        listing_lines(s.drop_last(), depth, max_depth) + node_lines(s.last(), depth, max_depth)
    }
}

pub open spec fn node_lines(n: Node, depth: nat, max_depth: nat) -> Seq<(nat, Node)>
    decreases n,
{
    if is_hidden(n.name@) {
        Seq::empty()
    } else if n.is_dir {
        seq![(depth, n)] + listing_lines(n.children@, depth + 1, max_depth)
    } else {
        seq![(depth, n)]
    }
}

pub open spec fn branch_glyph() -> Seq<char> {
    seq!['\u{2502}', ' ', ' ']
}

pub open spec fn corner_glyph() -> Seq<char> {
    seq!['\u{2514}', '\u{2500}', '\u{2500}']
}

pub open spec fn repeat_seq(s: Seq<char>, k: nat) -> Seq<char>
    decreases k,
{
    if k == 0 {
        Seq::empty()
    } else {
        repeat_seq(s, (k - 1) as nat) + s
    }
}

/// Indentation of a line at `depth`: a pass-through glyph for each ancestor
/// level and a connector for the deepest one.
pub open spec fn tree_prefix(depth: nat) -> Seq<char> {
    if depth == 0 {
        Seq::empty()
    } else {
        repeat_seq(branch_glyph(), (depth - 1) as nat) + corner_glyph()
    }
}

/// Node glyph: a directory has children, a file is a leaf.
pub open spec fn node_glyph(is_dir: bool) -> Seq<char> {
    if is_dir {
        seq!['\u{252c}']
    } else {
        seq!['\u{2500}']
    }
}

/// `<time> <size> <prefix><glyph> <name>`, the time padded to 19 characters
/// and the size right-aligned in 10.
pub open spec fn line_text(depth: nat, n: Node) -> Seq<char> {
    pad_right(n.modified.text(), 19) + seq![' '] + pad_left(size_text(total_size(n)), ' ', 10)
        + seq![' '] + tree_prefix(depth) + node_glyph(n.is_dir) + seq![' '] + n.name@
}

/// The text of a listing: each line followed by a newline.
pub open spec fn listing_text(lines: Seq<(nat, Node)>) -> Seq<char>
    decreases lines.len(),
{
    if lines.len() == 0 {
        Seq::empty()
    } else {
        listing_text(lines.drop_last()) + line_text(lines.last().0, lines.last().1) + seq!['\n']
    }
}

proof fn lemma_listing_text_concat(a: Seq<(nat, Node)>, b: Seq<(nat, Node)>)
    ensures
        listing_text(a + b) == listing_text(a) + listing_text(b),
    decreases b.len(),
{
    if b.len() == 0 {
        assert(a + b =~= a);
        assert(listing_text(b) == Seq::<char>::empty());
        assert(listing_text(a) + listing_text(b) =~= listing_text(a));
    } else {
        let c = a + b;
        assert(c.drop_last() =~= a + b.drop_last());
        assert(c.last() == b.last());
        lemma_listing_text_concat(a, b.drop_last());
        let tail = line_text(b.last().0, b.last().1) + seq!['\n'];
        assert(listing_text(c) == listing_text(c.drop_last()) + tail);
        assert(listing_text(b) == listing_text(b.drop_last()) + tail);
        assert(listing_text(c) =~= listing_text(a) + listing_text(b));
    }
}

proof fn lemma_sizes_sum_prefix(s: Seq<Node>, j: int)
    requires
        0 <= j <= s.len(),
    ensures
        sizes_sum(s.subrange(0, j)) <= sizes_sum(s),
    decreases s.len(),
{
    if j == s.len() {
        assert(s.subrange(0, j) =~= s);
    } else {
        assert(s.drop_last().subrange(0, j) =~= s.subrange(0, j));
        lemma_sizes_sum_prefix(s.drop_last(), j);
    }
}

proof fn lemma_sizes_sum_step(s: Seq<Node>, i: int)
    requires
        0 <= i < s.len(),
    ensures
        sizes_sum(s.subrange(0, i + 1)) == sizes_sum(s.subrange(0, i)) + total_size(s[i]),
        total_size(s[i]) <= sizes_sum(s),
        sizes_sum(s.subrange(0, i + 1)) <= sizes_sum(s),
{
    assert(s.subrange(0, i + 1).drop_last() =~= s.subrange(0, i));
    lemma_sizes_sum_prefix(s, i + 1);
}

/// Sum of the sizes of the entries of a directory, hidden ones included.
pub fn entries_size(children: &Vec<Node>) -> (r: u64)
    requires
        sizes_sum(children@) <= u64::MAX,
    ensures
        r == sizes_sum(children@),
    decreases children,
{
    let mut total: u64 = 0;
    let mut i: usize = 0;
    while i < children.len()
        invariant
            i <= children@.len(),
            sizes_sum(children@) <= u64::MAX,
            total == sizes_sum(children@.subrange(0, i as int)),
        decreases children@.len() - i,
    {
        proof {
            lemma_sizes_sum_step(children@, i as int);
        }
        let child = &children[i];
        let size = if child.is_dir {
            entries_size(&child.children)
        } else {
            child.len
        };
        total = total + size;
        i = i + 1;
    }
    assert(children@.subrange(0, children@.len() as int) =~= children@);
    total
}


fn tree_prefix_str(depth: u64) -> (r: String)
    ensures
        r@ == tree_prefix(depth as nat),
{
    let mut r = String::new();
    if depth == 0 {
        return r;
    }
    proof {
        reveal_strlit("\u{2502}  ");
        reveal_strlit("\u{2514}\u{2500}\u{2500}");
    }
    let branch = "\u{2502}  ";
    assert(branch@ =~= branch_glyph());
    let mut i: u64 = 0;
    while i < depth - 1
        invariant
            depth >= 1,
            i <= depth - 1,
            branch@ == branch_glyph(),
            r@ == repeat_seq(branch_glyph(), i as nat),
        decreases depth - 1 - i,
    {
        r.append(branch);
        i = i + 1;
    }
    let corner = "\u{2514}\u{2500}\u{2500}";
    assert(corner@ =~= corner_glyph());
    r.append(corner);
    r
}

fn node_glyph_str(is_dir: bool) -> (r: &'static str)
    ensures
        r@ == node_glyph(is_dir),
{
    if is_dir {
        proof {
            reveal_strlit("\u{252c}");
        }
        let r = "\u{252c}";
        assert(r@ =~= node_glyph(is_dir));
        r
    } else {
        proof {
            reveal_strlit("\u{2500}");
        }
        let r = "\u{2500}";
        assert(r@ =~= node_glyph(is_dir));
        r
    }
}

/// Size of one entry: a file's length, or what a directory holds in all.
pub fn entry_size(n: &Node) -> (r: u64)
    requires
        total_size(*n) <= u64::MAX,
    ensures
        r == total_size(*n),
{
    if n.is_dir {
        entries_size(&n.children)
    } else {
        n.len
    }
}

/// One line of the listing for the entry `n` at `depth`.
pub fn render_line(depth: u64, n: &Node) -> (r: String)
    requires
        total_size(*n) <= u64::MAX,
    ensures
        r@ == line_text(depth as nat, *n),
{
    proof {
        reveal_strlit(" ");
    }
    let time = pad_right_str(n.modified.render(), 19);
    let size = pad_left_str(human_size(entry_size(n)), " ", 10);
    let r = time.concat(" ");
    let r = r.concat(size.as_str());
    let r = r.concat(" ");
    let r = r.concat(tree_prefix_str(depth).as_str());
    let r = r.concat(node_glyph_str(n.is_dir));
    let r = r.concat(" ");
    let r = r.concat(n.name.as_str());
    assert(r@ =~= line_text(depth as nat, *n));
    r
}

fn name_is_hidden(name: &str) -> (r: bool)
    ensures
        r == is_hidden(name@),
{
    if name.unicode_len() == 0 {
        false
    } else {
        name.get_char(0) == '.'
    }
}

proof fn lemma_listing_text_single(x: (nat, Node))
    ensures
        listing_text(seq![x]) == line_text(x.0, x.1) + seq!['\n'],
{
    assert(seq![x].drop_last() =~= Seq::<(nat, Node)>::empty());
    assert(listing_text(Seq::<(nat, Node)>::empty()) =~= Seq::<char>::empty());
    assert(seq![x].last() == x);
    assert(listing_text(seq![x]) =~= line_text(x.0, x.1) + seq!['\n']);
}

proof fn lemma_listing_lines_step(s: Seq<Node>, i: int, depth: nat, max_depth: nat)
    requires
        0 <= i < s.len(),
        depth <= max_depth,
    ensures
        listing_text(listing_lines(s.subrange(0, i + 1), depth, max_depth)) == listing_text(
            listing_lines(s.subrange(0, i), depth, max_depth),
        ) + listing_text(node_lines(s[i], depth, max_depth)),
{
    let next = s.subrange(0, i + 1);
    assert(next.drop_last() =~= s.subrange(0, i));
    assert(next.last() == s[i]);
    lemma_listing_text_concat(
        listing_lines(s.subrange(0, i), depth, max_depth),
        node_lines(s[i], depth, max_depth),
    );
}

/// Appends to `out` the lines of the entry `n` at `depth` and of what it holds.
fn render_node(n: &Node, depth: u64, max_depth: u64, out: &mut String)
    requires
        total_size(*n) <= u64::MAX,
        depth <= max_depth,
        max_depth < 256,
    ensures
        final(out)@ == old(out)@ + listing_text(node_lines(*n, depth as nat, max_depth as nat)),
    decreases n,
{
    if name_is_hidden(n.name.as_str()) {
        assert(old(out)@ + listing_text(Seq::empty()) =~= old(out)@);
        return;
    }
    let line = render_line(depth, n);
    out.append(line.as_str());
    proof {
        reveal_strlit("\n");
        lemma_listing_text_single((depth as nat, *n));
    }
    out.append("\n");
    if n.is_dir {
        render_entries(&n.children, depth + 1, max_depth, out);
        proof {
            lemma_listing_text_concat(
                seq![(depth as nat, *n)],
                listing_lines(n.children@, (depth + 1) as nat, max_depth as nat),
            );
        }
    }
    assert(final(out)@ =~= old(out)@ + listing_text(
        node_lines(*n, depth as nat, max_depth as nat),
    ));
}

/// Appends to `out` the listing of the entries `children` at `depth`.
fn render_entries(children: &Vec<Node>, depth: u64, max_depth: u64, out: &mut String)
    requires
        sizes_sum(children@) <= u64::MAX,
        depth <= max_depth + 1,
        max_depth < 256,
    ensures
        final(out)@ == old(out)@ + listing_text(
            listing_lines(children@, depth as nat, max_depth as nat),
        ),
    decreases children,
{
    if depth > max_depth {
        assert(old(out)@ + listing_text(Seq::empty()) =~= old(out)@);
        return;
    }
    let ghost start = out@;
    let mut i: usize = 0;
    assert(out@ =~= start + listing_text(
        listing_lines(children@.subrange(0, 0), depth as nat, max_depth as nat),
    ));
    while i < children.len()
        invariant
            i <= children@.len(),
            sizes_sum(children@) <= u64::MAX,
            depth <= max_depth,
            max_depth < 256,
            out@ == start + listing_text(
                listing_lines(children@.subrange(0, i as int), depth as nat, max_depth as nat),
            ),
        decreases children@.len() - i,
    {
        proof {
            lemma_sizes_sum_step(children@, i as int);
            lemma_listing_lines_step(children@, i as int, depth as nat, max_depth as nat);
        }
        render_node(&children[i], depth, max_depth, out);
        i = i + 1;
    }
    assert(children@.subrange(0, children@.len() as int) =~= children@);
}

/// The listing of what the directory `dir` holds, down to `max_depth`
/// levels below it (0: its own entries only). The snapshot being well formed,
/// each directory's entries come in ascending order of name.
pub fn generate_listing(dir: &Node, max_depth: u8) -> (r: String)
    requires
        dir.is_dir,
        node_wf(*dir),
        total_size(*dir) <= u64::MAX,
    ensures
        r@ == listing_text(listing_lines(dir.children@, 0, max_depth as nat)),
{
    let mut out = String::new();
    render_entries(&dir.children, 0, max_depth as u64, &mut out);
    assert(out@ =~= listing_text(listing_lines(dir.children@, 0, max_depth as nat)));
    out
}


/// Lexicographic order of names, character by character; a proper prefix
/// comes first.
pub open spec fn name_lt(a: Seq<char>, b: Seq<char>) -> bool
    decreases a.len(),
{
    if b.len() == 0 {
        false
    } else if a.len() == 0 {
        true
    } else if a[0] != b[0] {
        (a[0] as int) < (b[0] as int)
    } else {
        name_lt(a.drop_first(), b.drop_first())
    }
}

proof fn lemma_name_lt_irreflexive(a: Seq<char>)
    ensures
        !name_lt(a, a),
    decreases a.len(),
{
    if a.len() > 0 {
        lemma_name_lt_irreflexive(a.drop_first());
    }
}

proof fn lemma_name_lt_trichotomy(a: Seq<char>, b: Seq<char>)
    ensures
        name_lt(a, b) || a == b || name_lt(b, a),
        !(name_lt(a, b) && name_lt(b, a)),
    decreases a.len(),
{
    if a.len() > 0 && b.len() > 0 {
        lemma_name_lt_trichotomy(a.drop_first(), b.drop_first());
        if a[0] == b[0] && a.drop_first() == b.drop_first() {
            assert(a =~= seq![a[0]] + a.drop_first());
            assert(b =~= seq![b[0]] + b.drop_first());
        }
        if a[0] != b[0] {
            assert((a[0] as int) != (b[0] as int));
        }
    } else if a.len() == 0 && b.len() == 0 {
        assert(a =~= b);
    }
}

proof fn lemma_name_lt_transitive(a: Seq<char>, b: Seq<char>, c: Seq<char>)
    requires
        name_lt(a, b),
        name_lt(b, c),
    ensures
        name_lt(a, c),
    decreases a.len(),
{
    if a.len() > 0 && b.len() > 0 && c.len() > 0 {
        if a[0] == b[0] && b[0] == c[0] {
            lemma_name_lt_transitive(a.drop_first(), b.drop_first(), c.drop_first());
        }
    }
}

/// Compares two names in `name_lt` order: -1, 0 or 1.
pub fn compare_names(a: &str, b: &str) -> (r: i8)
    ensures
        r == -1 <==> name_lt(a@, b@),
        r == 0 <==> a@ == b@,
        r == 1 <==> name_lt(b@, a@),
{
    proof {
        lemma_name_lt_trichotomy(a@, b@);
    }
    let n = a.unicode_len();
    let m = b.unicode_len();
    let mut i: usize = 0;
    assert(a@.skip(0) =~= a@);
    assert(b@.skip(0) =~= b@);
    while i < n && i < m
        invariant
            n == a@.len(),
            m == b@.len(),
            i <= n,
            i <= m,
            a@.subrange(0, i as int) == b@.subrange(0, i as int),
            name_lt(a@, b@) == name_lt(a@.skip(i as int), b@.skip(i as int)),
            name_lt(b@, a@) == name_lt(b@.skip(i as int), a@.skip(i as int)),
        decreases n - i,
    {
        let x = a.get_char(i);
        let y = b.get_char(i);
        assert(a@.skip(i as int)[0] == x);
        assert(b@.skip(i as int)[0] == y);
        if x != y {
            if (x as u32) < (y as u32) {
                return -1;
            } else {
                return 1;
            }
        }
        assert(a@.skip(i as int).drop_first() =~= a@.skip(i + 1));
        assert(b@.skip(i as int).drop_first() =~= b@.skip(i + 1));
        assert(a@.subrange(0, i + 1) =~= a@.subrange(0, i as int).push(x));
        assert(b@.subrange(0, i + 1) =~= b@.subrange(0, i as int).push(y));
        i = i + 1;
    }
    if n == m {
        assert(a@ =~= a@.subrange(0, i as int));
        assert(b@ =~= b@.subrange(0, i as int));
        0
    } else if i == n {
        assert(a@.skip(i as int).len() == 0);
        assert(b@.skip(i as int).len() > 0);
        -1
    } else {
        assert(b@.skip(i as int).len() == 0);
        assert(a@.skip(i as int).len() > 0);
        1
    }
}

/// Entries strictly ascending by name, so each name occurs once.
pub open spec fn names_ascending(s: Seq<Node>) -> bool {
    forall|i: int, j: int| 0 <= i < j < s.len() ==> name_lt(#[trigger] s[i].name@, #[trigger] s[j].name@)
}

/// Well-formed snapshot: a file holds nothing, and each directory's entries
/// are well formed and strictly ascending by name.
pub open spec fn node_wf(n: Node) -> bool
    decreases n,
{
    &&& !n.is_dir ==> n.children@.len() == 0
    &&& names_ascending(n.children@)
    &&& forall|i: int| 0 <= i < n.children@.len() ==> node_wf(#[trigger] n.children@[i])
}


impl Node {
    /// A file of `len` bytes.
    pub fn file(name: String, len: u64, modified: Timestamp) -> (r: Node)
        ensures
            node_wf(r),
            r.name@ == name@,
            !r.is_dir,
            r.len == len,
            r.modified == modified,
            r.children@.len() == 0,
    {
        Node { name, is_dir: false, len, modified, children: Vec::new() }
    }

    /// A directory that holds nothing yet.
    pub fn dir(name: String, modified: Timestamp) -> (r: Node)
        ensures
            node_wf(r),
            r.name@ == name@,
            r.is_dir,
            r.len == 0,
            r.modified == modified,
            r.children@.len() == 0,
    {
        Node { name, is_dir: true, len: 0, modified, children: Vec::new() }
    }

    /// Puts `child` among the entries of this directory at its place by
    /// name, replacing an entry of the same name.
    pub fn add_child(&mut self, child: Node)
        requires
            old(self).is_dir,
            node_wf(*old(self)),
            node_wf(child),
        ensures
            node_wf(*final(self)),
            final(self).name == old(self).name,
            final(self).is_dir == old(self).is_dir,
            final(self).len == old(self).len,
            final(self).modified == old(self).modified,
            final(self).children@.contains(child),
            forall|x: Node|
                #[trigger] final(self).children@.contains(x) <==> (x == child || (old(
                    self,
                ).children@.contains(x) && x.name@ != child.name@)),
    {
        let ghost old_children = self.children@;
        let n = self.children.len();
        let mut i: usize = 0;
        while i < n
            invariant
                n == self.children@.len(),
                self.children@ == old_children,
                i <= n,
                forall|j: int| 0 <= j < i ==> name_lt(#[trigger] old_children[j].name@, child.name@),
            ensures
                i <= n,
                self.children@ == old_children,
                forall|j: int| 0 <= j < i ==> name_lt(#[trigger] old_children[j].name@, child.name@),
                i < n ==> !name_lt(old_children[i as int].name@, child.name@),
            decreases n - i,
        {
            let c = compare_names(self.children[i].name.as_str(), child.name.as_str());
            if c != -1 {
                break;
            }
            i = i + 1;
        }
        proof {
            if i < n {
                lemma_name_lt_trichotomy(old_children[i as int].name@, child.name@);
            }
        }
        let same = i < n && compare_names(self.children[i].name.as_str(), child.name.as_str())
            == 0;
        let ghost c = child;
        if same {
            self.children.set(i, child);
            proof {
                let s = self.children@;
                assert forall|a: int, b: int| 0 <= a < b < s.len() implies name_lt(
                    #[trigger] s[a].name@,
                    #[trigger] s[b].name@,
                ) by {
                    assert(name_lt(old_children[a].name@, old_children[b].name@));
                }
                assert forall|x: Node| #[trigger] s.contains(x) <==> (x == c || (
                old_children.contains(x) && x.name@ != c.name@)) by {
                    if s.contains(x) {
                        let k = choose|k: int| 0 <= k < s.len() && s[k] == x;
                        if k != i {
                            assert(old_children[k] == x);
                            if x.name@ == c.name@ {
                                lemma_name_lt_irreflexive(x.name@);
                                if k < i {
                                    assert(name_lt(old_children[k].name@, old_children[i as int].name@));
                                } else {
                                    assert(name_lt(old_children[i as int].name@, old_children[k].name@));
                                }
                            }
                        }
                    }
                    if x == c {
                        assert(s[i as int] == x);
                    }
                    if old_children.contains(x) && x.name@ != c.name@ {
                        let k = choose|k: int| 0 <= k < old_children.len() && old_children[k] == x;
                        assert(k != i);
                        assert(s[k] == x);
                    }
                }
                assert(s[i as int] == c);
            }
        } else {
            self.children.insert(i, child);
            proof {
                let s = self.children@;
                assert forall|j: int| i < j < s.len() implies name_lt(c.name@, #[trigger] s[j].name@) by {
                    assert(s[j] == old_children[j - 1]);
                    if j - 1 > i {
                        assert(name_lt(old_children[i as int].name@, old_children[j - 1].name@));
                        lemma_name_lt_transitive(c.name@, old_children[i as int].name@, old_children[j - 1].name@);
                    }
                }
                assert forall|a: int, b: int| 0 <= a < b < s.len() implies name_lt(
                    #[trigger] s[a].name@,
                    #[trigger] s[b].name@,
                ) by {
                    if b < i {
                        assert(name_lt(old_children[a].name@, old_children[b].name@));
                    } else if b == i {
                        assert(s[a] == old_children[a]);
                    } else if a == i {
                    } else if a < i {
                        assert(s[a] == old_children[a]);
                        assert(name_lt(old_children[a].name@, c.name@));
                        assert(name_lt(c.name@, s[b].name@));
                        lemma_name_lt_transitive(s[a].name@, c.name@, s[b].name@);
                    } else {
                        assert(s[a] == old_children[a - 1]);
                        assert(s[b] == old_children[b - 1]);
                    }
                }
                assert forall|x: Node| #[trigger] s.contains(x) <==> (x == c || (
                old_children.contains(x) && x.name@ != c.name@)) by {
                    if s.contains(x) {
                        let k = choose|k: int| 0 <= k < s.len() && s[k] == x;
                        if k < i {
                            assert(old_children[k] == x);
                            lemma_name_lt_irreflexive(x.name@);
                        } else if k > i {
                            assert(old_children[k - 1] == x);
                            lemma_name_lt_irreflexive(x.name@);
                        }
                    }
                    if x == c {
                        assert(s[i as int] == x);
                    }
                    if old_children.contains(x) && x.name@ != c.name@ {
                        let k = choose|k: int| 0 <= k < old_children.len() && old_children[k] == x;
                        if k < i {
                            assert(s[k] == x);
                        } else {
                            assert(s[k + 1] == x);
                        }
                    }
                }
                assert(s[i as int] == c);
            }
        }
        proof {
            let s = self.children@;
            assert forall|j: int| 0 <= j < s.len() implies node_wf(#[trigger] s[j]) by {
                if s[j] != c {
                    assert(s.contains(s[j]));
                    let k = choose|k: int| 0 <= k < old_children.len() && old_children[k] == s[j];
                }
            }
        }
    }
}


/// Every rendered line lies between `depth` and `max_depth` and belongs to a
/// visible entry: nothing below the depth limit and nothing hidden is ever
/// written, at any level.
pub proof fn lemma_listing_respects_depth_and_hidden(s: Seq<Node>, depth: nat, max_depth: nat)
    ensures
        forall|k: int|
            0 <= k < listing_lines(s, depth, max_depth).len() ==> {
                let l = #[trigger] listing_lines(s, depth, max_depth)[k];
                &&& depth <= l.0 <= max_depth
                &&& !is_hidden(l.1.name@)
            },
    decreases s,
{
    if depth > max_depth || s.len() == 0 {
    } else {
        lemma_listing_respects_depth_and_hidden(s.drop_last(), depth, max_depth);
        lemma_node_lines_respect_depth_and_hidden(s.last(), depth, max_depth);
        let a = listing_lines(s.drop_last(), depth, max_depth);
        let b = node_lines(s.last(), depth, max_depth);
        assert forall|k: int| 0 <= k < (a + b).len() implies {
            let l = #[trigger] (a + b)[k];
            &&& depth <= l.0 <= max_depth
            &&& !is_hidden(l.1.name@)
        } by {
            if k < a.len() {
                assert((a + b)[k] == a[k]);
            } else {
                assert((a + b)[k] == b[k - a.len()]);
            }
        }
    }
}

/// The lines of one entry: none when it is hidden, and all between `depth`
/// and `max_depth` for a visible entry at a depth within the limit.
pub proof fn lemma_node_lines_respect_depth_and_hidden(n: Node, depth: nat, max_depth: nat)
    requires
        depth <= max_depth,
    ensures
        is_hidden(n.name@) ==> node_lines(n, depth, max_depth).len() == 0,
        forall|k: int|
            0 <= k < node_lines(n, depth, max_depth).len() ==> {
                let l = #[trigger] node_lines(n, depth, max_depth)[k];
                &&& depth <= l.0 <= max_depth
                &&& !is_hidden(l.1.name@)
            },
    decreases n,
{
    if is_hidden(n.name@) {
    } else if n.is_dir {
        lemma_listing_respects_depth_and_hidden(n.children@, depth + 1, max_depth);
        let a = seq![(depth, n)];
        let b = listing_lines(n.children@, depth + 1, max_depth);
        assert forall|k: int| 0 <= k < (a + b).len() implies {
            let l = #[trigger] (a + b)[k];
            &&& depth <= l.0 <= max_depth
            &&& !is_hidden(l.1.name@)
        } by {
            if k < 1 {
                assert((a + b)[k] == a[k]);
            } else {
                assert((a + b)[k] == b[k - 1]);
            }
        }
    }
}

pub open spec fn visible_entry() -> spec_fn(Node) -> bool {
    |x: Node| !is_hidden(x.name@)
}

pub open spec fn hidden_entry() -> spec_fn(Node) -> bool {
    |x: Node| is_hidden(x.name@)
}

proof fn lemma_sizes_sum_push(s: Seq<Node>, x: Node)
    ensures
        sizes_sum(s.push(x)) == sizes_sum(s) + total_size(x),
{
    assert(s.push(x).drop_last() =~= s);
}

/// A directory's size counts hidden entries too: it is the size of its
/// visible entries plus that of its hidden ones, though only the visible
/// ones are rendered.
pub proof fn lemma_hidden_sizes_counted(s: Seq<Node>)
    ensures
        sizes_sum(s) == sizes_sum(s.filter(visible_entry())) + sizes_sum(
            s.filter(hidden_entry()),
        ),
    decreases s.len(),
{
    reveal(Seq::filter);
    if s.len() > 0 {
        let d = s.drop_last();
        let x = s.last();
        lemma_hidden_sizes_counted(d);
        let fv = d.filter(visible_entry());
        let fh = d.filter(hidden_entry());
        assert(s.filter(visible_entry()) == if visible_entry()(x) {
            fv.push(x)
        } else {
            fv
        });
        assert(s.filter(hidden_entry()) == if hidden_entry()(x) {
            fh.push(x)
        } else {
            fh
        });
        lemma_sizes_sum_push(fv, x);
        lemma_sizes_sum_push(fh, x);
    }
}

proof fn lemma_ascending_same_entries_equal(s1: Seq<Node>, s2: Seq<Node>)
    requires
        names_ascending(s1),
        names_ascending(s2),
        forall|x: Node| s1.contains(x) <==> s2.contains(x),
    ensures
        s1 == s2,
    decreases s1.len(),
{
    if s1.len() == 0 {
        if s2.len() > 0 {
            assert(s2.contains(s2[0]));
        }
        assert(s1 =~= s2);
    } else if s2.len() == 0 {
        assert(s1.contains(s1[0]));
    } else {
        assert(s1.contains(s1[0]));
        assert(s2.contains(s2[0]));
        let k = choose|k: int| 0 <= k < s2.len() && s2[k] == s1[0];
        let k2 = choose|k: int| 0 <= k < s1.len() && s1[k] == s2[0];
        lemma_name_lt_irreflexive(s1[0].name@);
        lemma_name_lt_irreflexive(s2[0].name@);
        if k > 0 {
            assert(name_lt(s2[0].name@, s2[k].name@));
            if k2 > 0 {
                assert(name_lt(s1[0].name@, s1[k2].name@));
                lemma_name_lt_trichotomy(s1[0].name@, s2[0].name@);
            }
        }
        assert(s1[0] == s2[0]);
        let t1 = s1.drop_first();
        let t2 = s2.drop_first();
        assert forall|x: Node| t1.contains(x) <==> t2.contains(x) by {
            if t1.contains(x) {
                let j = choose|j: int| 0 <= j < t1.len() && t1[j] == x;
                assert(s1[j + 1] == x);
                assert(s1.contains(x));
                let j2 = choose|j2: int| 0 <= j2 < s2.len() && s2[j2] == x;
                if j2 == 0 {
                    assert(name_lt(s1[0].name@, s1[j + 1].name@));
                }
                assert(t2[j2 - 1] == x);
            }
            if t2.contains(x) {
                let j = choose|j: int| 0 <= j < t2.len() && t2[j] == x;
                assert(s2[j + 1] == x);
                assert(s2.contains(x));
                let j1 = choose|j1: int| 0 <= j1 < s1.len() && s1[j1] == x;
                if j1 == 0 {
                    assert(name_lt(s2[0].name@, s2[j + 1].name@));
                }
                assert(t1[j1 - 1] == x);
            }
        }
        assert forall|a: int, b: int| 0 <= a < b < t1.len() implies name_lt(
            #[trigger] t1[a].name@,
            #[trigger] t1[b].name@,
        ) by {
            assert(name_lt(s1[a + 1].name@, s1[b + 1].name@));
        }
        assert forall|a: int, b: int| 0 <= a < b < t2.len() implies name_lt(
            #[trigger] t2[a].name@,
            #[trigger] t2[b].name@,
        ) by {
            assert(name_lt(s2[a + 1].name@, s2[b + 1].name@));
        }
        lemma_ascending_same_entries_equal(t1, t2);
        assert(s1 =~= seq![s1[0]] + t1);
        assert(s2 =~= seq![s2[0]] + t2);
    }
}

/// The listing depends on what a directory holds, not on the order its
/// entries were found in: two well-formed snapshots with the same entries
/// give the same text at any depth.
pub proof fn lemma_listing_deterministic(a: Node, b: Node, max_depth: nat)
    requires
        node_wf(a),
        node_wf(b),
        forall|x: Node| a.children@.contains(x) <==> b.children@.contains(x),
    ensures
        listing_text(listing_lines(a.children@, 0, max_depth)) == listing_text(
            listing_lines(b.children@, 0, max_depth),
        ),
{
    lemma_ascending_same_entries_equal(a.children@, b.children@);
}


/// Whether `part` occurs in `whole` as a contiguous piece.
pub open spec fn occurs_in(part: Seq<char>, whole: Seq<char>) -> bool {
    exists|k: int|
        0 <= k && k + part.len() <= whole.len() && #[trigger] whole.subrange(k, k + part.len())
            == part
}

proof fn lemma_visible_entry_has_line(s: Seq<Node>, depth: nat, max_depth: nat, i: int)
    requires
        depth <= max_depth,
        0 <= i < s.len(),
        !is_hidden(s[i].name@),
    ensures
        listing_lines(s, depth, max_depth).contains((depth, s[i])),
    decreases s.len(),
{
    let a = listing_lines(s.drop_last(), depth, max_depth);
    let b = node_lines(s.last(), depth, max_depth);
    if i == s.len() - 1 {
        assert(b[0] == (depth, s[i]));
        assert((a + b)[a.len() as int] == (depth, s[i]));
    } else {
        assert(s.drop_last()[i] == s[i]);
        lemma_visible_entry_has_line(s.drop_last(), depth, max_depth, i);
        let k = choose|k: int| 0 <= k < a.len() && a[k] == (depth, s[i]);
        assert((a + b)[k] == (depth, s[i]));
    }
}

proof fn lemma_line_in_text(lines: Seq<(nat, Node)>, j: int)
    requires
        0 <= j < lines.len(),
    ensures
        occurs_in(line_text(lines[j].0, lines[j].1), listing_text(lines)),
    decreases lines.len(),
{
    let line = line_text(lines[j].0, lines[j].1);
    let head = listing_text(lines.drop_last());
    let whole = listing_text(lines);
    let tail = line_text(lines.last().0, lines.last().1) + seq!['\n'];
    assert(whole == head + tail);
    if j == lines.len() - 1 {
        let k = head.len() as int;
        assert(whole.subrange(k, k + line.len()) =~= line);
    } else {
        assert(lines.drop_last()[j] == lines[j]);
        lemma_line_in_text(lines.drop_last(), j);
        let k = choose|k: int|
            0 <= k && k + line.len() <= head.len() && #[trigger] head.subrange(k, k + line.len())
                == line;
        assert(whole.subrange(k, k + line.len()) =~= head.subrange(k, k + line.len()));
    }
}

/// The manifest of a directory names every visible entry it holds: each
/// such name occurs in the listing text, at any depth limit.
pub proof fn lemma_listing_names_visible_entries(dir: Node, max_depth: nat, i: int)
    requires
        0 <= i < dir.children@.len(),
        !is_hidden(dir.children@[i].name@),
    ensures
        occurs_in(
            dir.children@[i].name@,
            listing_text(listing_lines(dir.children@, 0, max_depth)),
        ),
{
    let c = dir.children@[i];
    let lines = listing_lines(dir.children@, 0, max_depth);
    lemma_visible_entry_has_line(dir.children@, 0, max_depth, i);
    let j = choose|j: int| 0 <= j < lines.len() && lines[j] == (0nat, c);
    lemma_line_in_text(lines, j);
    let line = line_text(0, c);
    let text = listing_text(lines);
    let k = choose|k: int|
        0 <= k && k + line.len() <= text.len() && #[trigger] text.subrange(k, k + line.len())
            == line;
    let n = c.name@.len() as int;
    let at = k + line.len() - n;
    assert(line.subrange(line.len() - n, line.len() as int) =~= c.name@);
    assert(text.subrange(at, at + n) =~= c.name@) by {
        assert forall|t: int| 0 <= t < n implies text.subrange(at, at + n)[t] == c.name@[t] by {
            assert(text.subrange(k, k + line.len())[line.len() - n + t] == line[line.len() - n
                + t]);
        }
    }
}

} // verus!
