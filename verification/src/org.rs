//! Processing of .org outline documents: headings marked by leading
//! asterisks, content lines, and nested subtrees. This covers document
//! fields, headings and subheadings, and content text.

use crate::string_util::str_eq;
use vstd::prelude::*;

verus! {

/// Org data structure.
pub struct Org {
    pub depth: usize,
    pub heading: String,
    pub content: Vec<String>,
    pub subtrees: Vec<Org>,
    pub closed: bool,
}

/// Whitespace characters stripped from heading titles.
pub open spec fn is_ws(c: char) -> bool {
    c == ' ' || c == '\t' || c == '\n' || c == '\r' || c == '\u{b}' || c == '\u{c}'
}

/// `s` without its leading whitespace.
pub open spec fn drop_leading_ws(s: Seq<char>) -> Seq<char>
    decreases s.len(),
{
    if s.len() > 0 && is_ws(s[0]) {
        drop_leading_ws(s.skip(1))
    } else {
        s
    }
}

/// `s` without its trailing whitespace.
pub open spec fn drop_trailing_ws(s: Seq<char>) -> Seq<char>
    decreases s.len(),
{
    if s.len() > 0 && is_ws(s.last()) {
        drop_trailing_ws(s.drop_last())
    } else {
        s
    }
}

/// `s` without leading and trailing whitespace.
pub open spec fn trim_of(s: Seq<char>) -> Seq<char> {
    drop_trailing_ws(drop_leading_ws(s))
}

/// The number of '*' characters that `s` starts with.
pub open spec fn star_prefix_len(s: Seq<char>) -> int
    decreases s.len(),
{
    if s.len() > 0 && s[0] == '*' {
        1 + star_prefix_len(s.skip(1))
    } else {
        0
    }
}

proof fn lemma_star_prefix_le_len(s: Seq<char>)
    ensures
        0 <= star_prefix_len(s) <= s.len(),
    decreases s.len(),
{
    if s.len() > 0 && s[0] == '*' {
        lemma_star_prefix_le_len(s.skip(1));
    }
}

proof fn lemma_star_prefix_step(s: Seq<char>, k: int)
    requires
        0 <= k <= s.len(),
        forall|j: int| 0 <= j < k ==> s[j] == '*',
        k == s.len() || s[k] != '*',
    ensures
        star_prefix_len(s) == k,
    decreases s.len(),
{
    if s.len() > 0 && s[0] == '*' {
        assert(k >= 1) by {
            if k == 0 {
                assert(s[0] != '*');
            }
        }
        lemma_star_prefix_step(s.skip(1), k - 1);
    } else {
        assert(k == 0) by {
            if k > 0 {
                assert(s[0] == '*');
            }
        }
    }
}

proof fn lemma_drop_leading_ws_at(s: Seq<char>, k: int)
    requires
        0 <= k <= s.len(),
        forall|j: int| 0 <= j < k ==> is_ws(s[j]),
        k == s.len() || !is_ws(s[k]),
    ensures
        drop_leading_ws(s) =~= s.skip(k),
    decreases s.len(),
{
    if s.len() > 0 && is_ws(s[0]) {
        assert(k >= 1) by {
            if k == 0 {
                assert(!is_ws(s[0]));
            }
        }
        lemma_drop_leading_ws_at(s.skip(1), k - 1);
        assert(s.skip(1).skip(k - 1) =~= s.skip(k));
    } else {
        assert(k == 0) by {
            if k > 0 {
                assert(is_ws(s[0]));
            }
        }
        assert(s.skip(0) =~= s);
    }
}

proof fn lemma_drop_trailing_ws_at(s: Seq<char>, k: int)
    requires
        0 <= k <= s.len(),
        forall|j: int| k <= j < s.len() ==> is_ws(s[j]),
        k == 0 || !is_ws(s[k - 1]),
    ensures
        drop_trailing_ws(s) =~= s.take(k),
    decreases s.len(),
{
    if s.len() > 0 && is_ws(s.last()) {
        assert(k < s.len()) by {
            if k == s.len() {
                assert(!is_ws(s[k - 1]));
            }
        }
        lemma_drop_trailing_ws_at(s.drop_last(), k);
        assert(s.drop_last().take(k) =~= s.take(k));
    } else {
        assert(k == s.len()) by {
            if k < s.len() {
                assert(is_ws(s[s.len() - 1]));
            }
        }
        assert(s.take(s.len() as int) =~= s);
    }
}

/// True if `c` is one of the whitespace characters `trim_str` strips.
fn is_ws_char(c: char) -> (r: bool)
    ensures
        r == is_ws(c),
{
    c == ' ' || c == '\t' || c == '\n' || c == '\r' || c == '\u{b}' || c == '\u{c}'
}

/// Strips leading and trailing whitespace from `s`.
fn trim_str(s: &str) -> (r: String)
    ensures
        r@ == trim_of(s@),
{
    let n = s.unicode_len();
    let mut start: usize = 0;
    while start < n && is_ws_char(s.get_char(start))
        invariant
            0 <= start <= n,
            n == s@.len(),
            forall|j: int| 0 <= j < start ==> is_ws(s@[j]),
        decreases n - start,
    {
        start = start + 1;
    }
    proof {
        lemma_drop_leading_ws_at(s@, start as int);
    }
    let mut end: usize = n;
    while end > start && is_ws_char(s.get_char(end - 1))
        invariant
            start <= end <= n,
            n == s@.len(),
            forall|j: int| end <= j < n ==> is_ws(s@[j]),
        decreases end,
    {
        end = end - 1;
    }
    let r = s.substring_char(start, end);
    proof {
        let mid = s@.skip(start as int);
        lemma_drop_trailing_ws_at(mid, end - start);
        assert(mid.take(end - start) =~= s@.subrange(start as int, end as int));
    }
    r.to_owned()
}

/// Get the heading title and level from a line: the level is the number of
/// leading asterisks, the title is the rest of the line with surrounding
/// whitespace stripped.
pub fn get_heading(line: &str) -> (r: (String, usize))
    ensures
        r.1 == star_prefix_len(line@),
        r.0@ == trim_of(line@.skip(r.1 as int)),
{
    let n = line.unicode_len();
    let mut level: usize = 0;
    while level < n && line.get_char(level) == '*'
        invariant
            0 <= level <= n,
            n == line@.len(),
            forall|j: int| 0 <= j < level ==> line@[j] == '*',
        decreases n - level,
    {
        level = level + 1;
    }
    proof {
        lemma_star_prefix_step(line@, level as int);
    }
    let rest = line.substring_char(level, n);
    let heading = trim_str(rest);
    proof {
        assert(rest@ =~= line@.skip(level as int));
    }
    (heading, level)
}

/// The line that a subtree's heading is written as: the depth in asterisks,
/// one space, and the title.
pub open spec fn full_heading_view(o: Org) -> Seq<char> {
    Seq::new(o.depth as nat, |i: int| '*') + seq![' '] + o.heading@
}

impl Org {
    /// Get the full heading for the subtree, including beginning asterisks.
    pub fn full_heading(&self) -> (r: String)
        ensures
            self.depth == 0 ==> r@ == Seq::<char>::empty(),
            self.depth > 0 ==> r@ == full_heading_view(*self),
    {
        if self.depth == 0 {
            let r = String::new();
            return r;
        }
        let mut stars = String::new();
        let mut i: usize = 0;
        proof {
            reveal_strlit("*");
            reveal_strlit(" ");
        }
        while i < self.depth
            invariant
                0 <= i <= self.depth,
                stars@ =~= Seq::new(i as nat, |j: int| '*'),
                "*"@ =~= seq!['*'],
                " "@ =~= seq![' '],
            decreases self.depth - i,
        {
            stars.append("*");
            proof {
                assert(stars@ =~= Seq::new((i + 1) as nat, |j: int| '*'));
            }
            i = i + 1;
        }
        stars.append(" ");
        stars.append(self.heading.as_str());
        proof {
            assert(stars@ =~= full_heading_view(*self));
        }
        stars
    }
}

/// The lines that a subtree is written as: its heading line (except at the
/// document root), its content lines, then its subtrees in order.
pub open spec fn org_lines(o: Org) -> Seq<Seq<char>>
    decreases o, 0int,
{
    let head: Seq<Seq<char>> = if o.depth > 0 {
        seq![full_heading_view(o)]
    } else {
        Seq::<Seq<char>>::empty()
    };
    head + o.content@.map_values(|s: String| s@) + subtrees_lines(o.subtrees@)
}

/// The lines that a list of subtrees is written as, in order.
pub open spec fn subtrees_lines(ss: Seq<Org>) -> Seq<Seq<char>>
    decreases ss, ss.len(),
{
    if ss.len() == 0 {
        Seq::<Seq<char>>::empty()
    } else {
        org_lines(ss[0]) + subtrees_lines(ss.subrange(1, ss.len() as int))
    }
}

proof fn lemma_subtrees_lines_snoc(ss: Seq<Org>, i: int)
    requires
        0 <= i < ss.len(),
    ensures
        subtrees_lines(ss.subrange(0, i + 1)) == subtrees_lines(ss.subrange(0, i)) + org_lines(
            ss[i],
        ),
    decreases i,
{
    let a = ss.subrange(0, i + 1);
    if i == 0 {
        assert(a.len() == 1 && a[0] == ss[0]);
        assert(a.subrange(1, 1) =~= Seq::<Org>::empty());
        assert(subtrees_lines(Seq::<Org>::empty()) == Seq::<Seq<char>>::empty());
        assert(subtrees_lines(a) == org_lines(a[0]) + subtrees_lines(
            a.subrange(1, a.len() as int),
        ));
        assert(subtrees_lines(a) =~= org_lines(ss[0]));
        assert(ss.subrange(0, 0) =~= Seq::<Org>::empty());
        assert(subtrees_lines(ss.subrange(0, 0)) + org_lines(ss[0]) =~= org_lines(ss[0]));
    } else {
        let tail = ss.subrange(1, ss.len() as int);
        lemma_subtrees_lines_snoc(tail, i - 1);
        // Unfold both sides one step and align the shifted subranges.
        let b = ss.subrange(0, i);
        assert(a.subrange(1, a.len() as int) =~= tail.subrange(0, i));
        assert(b.subrange(1, b.len() as int) =~= tail.subrange(0, i - 1));
        assert(a[0] == ss[0] && b[0] == ss[0]);
        assert(tail[i - 1] == ss[i]);
        assert(subtrees_lines(a) == org_lines(ss[0]) + subtrees_lines(tail.subrange(0, i)));
        assert(subtrees_lines(b) == org_lines(ss[0]) + subtrees_lines(tail.subrange(0, i - 1)));
        assert(subtrees_lines(a) =~= subtrees_lines(b) + org_lines(ss[i]));
    }
}

/// The view of a vector of lines, as a sequence of character sequences.
pub open spec fn lines_view(v: Seq<String>) -> Seq<Seq<char>> {
    v.map_values(|s: String| s@)
}

/// Push an Org struct to a Vec of Strings.
fn write_subtree(org: &Org, contents: &mut Vec<String>)
    ensures
        lines_view(final (contents)@) == lines_view(old(contents)@) + org_lines(*org),
    decreases *org,
{
    let ghost base = lines_view(contents@);
    let ghost head: Seq<Seq<char>> = if org.depth > 0 {
        seq![full_heading_view(*org)]
    } else {
        Seq::<Seq<char>>::empty()
    };
    if org.depth > 0 {
        let h = org.full_heading();
        contents.push(h);
        proof {
            assert(lines_view(contents@) =~= base + head);
        }
    } else {
        proof {
            assert(lines_view(contents@) =~= base + head);
        }
    }
    let mut i: usize = 0;
    while i < org.content.len()
        invariant
            0 <= i <= org.content@.len(),
            lines_view(contents@) =~= base + head + lines_view(org.content@.subrange(0, i as int)),
        decreases org.content@.len() - i,
    {
        let ghost prev = contents@;
        let line = org.content[i].clone();
        contents.push(line);
        proof {
            assert(contents@ == prev.push(line));
            assert(lines_view(contents@) =~= lines_view(prev) + seq![line@]);
            assert(lines_view(org.content@.subrange(0, i + 1)) =~= lines_view(
                org.content@.subrange(0, i as int),
            ) + seq![org.content@[i as int]@]);
            assert(lines_view(contents@) =~= base + head + lines_view(
                org.content@.subrange(0, i + 1),
            ));
        }
        i = i + 1;
    }
    proof {
        assert(org.content@.subrange(0, org.content@.len() as int) =~= org.content@);
        assert(lines_view(contents@) =~= base + head + lines_view(org.content@));
    }
    let ghost mid = base + head + lines_view(org.content@);
    let mut k: usize = 0;
    proof {
        assert(org.subtrees@.subrange(0, 0) =~= Seq::<Org>::empty());
    }
    while k < org.subtrees.len()
        invariant
            0 <= k <= org.subtrees@.len(),
            lines_view(contents@) == mid + subtrees_lines(org.subtrees@.subrange(0, k as int)),
        decreases org.subtrees@.len() - k,
    {
        write_subtree(&org.subtrees[k], contents);
        proof {
            lemma_subtrees_lines_snoc(org.subtrees@, k as int);
        }
        k = k + 1;
    }
    proof {
        assert(org.subtrees@.subrange(0, org.subtrees@.len() as int) =~= org.subtrees@);
    }
}

/// Turns an Org struct back into its lines: each subtree contributes its
/// heading line, its content lines, and its subtrees, in order.
pub fn write_org(org: &Org) -> (r: Vec<String>)
    ensures
        lines_view(r@) == org_lines(*org),
{
    let mut contents: Vec<String> = Vec::new();
    proof {
        assert(lines_view(contents@) =~= Seq::<Seq<char>>::empty());
    }
    write_subtree(org, &mut contents);
    proof {
        assert(Seq::<Seq<char>>::empty() + org_lines(*org) =~= org_lines(*org));
    }
    contents
}

// Recursively process subtrees, converting from lines to the Org struct
// representation. Returns the index of the first line that does not belong
// to this subtree, so the caller can continue there: the subtree owns the
// lines up to, and the caller resumes at, the first heading line at its
// own depth or above.
fn process_subtree(org: &mut Org, contents: &Vec<String>, index: usize) -> (r: usize)
    requires
        index <= contents@.len(),
    ensures
        index <= r <= contents@.len(),
        final (org).depth == old(org).depth,
        final (org).heading == old(org).heading,
        final (org).closed == old(org).closed,
        forall|j: int|
            index <= j < r ==> !(1 <= star_prefix_len(#[trigger] contents@[j]@) <= old(org).depth),
        r < contents@.len() ==> 1 <= star_prefix_len(contents@[r as int]@) <= old(org).depth,
    decreases contents@.len() - index,
{
    let depth = org.depth;
    let mut i = index;
    while i < contents.len()
        invariant
            index <= i <= contents@.len(),
            org.depth == depth,
            depth == old(org).depth,
            org.heading == old(org).heading,
            org.closed == old(org).closed,
            forall|j: int|
                index <= j < i ==> !(1 <= star_prefix_len(#[trigger] contents@[j]@) <= depth),
        decreases contents@.len() - i,
    {
        let line = &contents[i];
        let (heading, level) = get_heading(line.as_str());
        if level == 0 {
            // Found content.
            org.content.push(line.clone());
            i = i + 1;
        } else if level <= depth {
            // Return if a new heading is found at equal or lesser depth.
            return i;
        } else {
            // Start processing a new subtree.
            let mut subtree = Org {
                depth: depth + 1,
                heading,
                content: Vec::new(),
                subtrees: Vec::new(),
                closed: false,
            };
            i = process_subtree(&mut subtree, contents, i + 1);
            org.subtrees.push(subtree);
        }
    }
    i
}

/// Given the lines of a document, return the Org tree they describe: each
/// leading-asterisk line opens a subtree one level below the one enclosing
/// it, holding the line's trimmed title, and every other line becomes a
/// content line of the innermost open subtree. The whole document is
/// consumed.
pub fn process_org(contents: &Vec<String>) -> (r: Org)
    ensures
        r.depth == 0,
        r.heading@ == Seq::<char>::empty(),
        r.closed == false,
{
    let mut org = Org {
        depth: 0,
        heading: String::new(),
        content: Vec::new(),
        subtrees: Vec::new(),
        closed: false,
    };
    process_subtree(&mut org, contents, 0);
    org
}

} // verus!
