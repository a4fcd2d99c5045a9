//! Line-based extraction of `<script>`, `<template>` and `<style>` blocks from Vue and
//! Svelte single-file components.

use vstd::prelude::*;

use crate::text::{
    chars_of, contains_char, contains_char_at, contains_seq, contains_seq_at, ends_with_char,
    find_char, find_char_at, find_seq, find_seq_at, has_no_newline, join_lines, lemma_join_lines_count,
    lemma_lines, line_ranges, lines, push_range, starts_with, starts_with_at, string_of, trim,
    trim_range,
};

verus! {

/// A block of a component: its text (its lines joined by `'\n'`) and the 0-indexed
/// line of the source file at which that text starts.
#[derive(Debug)]
pub struct SourceBlock {
    pub content: String,
    pub start_line: usize,
}

/// The mathematical value of a [`SourceBlock`].
pub struct SpecBlock {
    pub content: Seq<char>,
    pub start_line: nat,
}

impl View for SourceBlock {
    type V = SpecBlock;

    open spec fn view(&self) -> SpecBlock {
        SpecBlock { content: self.content@, start_line: self.start_line as nat }
    }
}

pub open spec fn blocks_view(v: Seq<SourceBlock>) -> Seq<SpecBlock> {
    v.map_values(|b: SourceBlock| b@)
}

/// The tags that delimit the blocks of a component.
#[derive(Clone, Copy, PartialEq, Eq, Debug)]
pub enum Tag {
    Script,
    Template,
    Style,
}

pub open spec fn tag_name(tag: Tag) -> Seq<char> {
    match tag {
        Tag::Script => seq!['s', 'c', 'r', 'i', 'p', 't'],
        Tag::Template => seq!['t', 'e', 'm', 'p', 'l', 'a', 't', 'e'],
        Tag::Style => seq!['s', 't', 'y', 'l', 'e'],
    }
}

/// `<tag`
pub open spec fn open_pat(tag: Tag) -> Seq<char> {
    seq!['<'] + tag_name(tag)
}

/// `</tag`
pub open spec fn close_pat(tag: Tag) -> Seq<char> {
    seq!['<', '/'] + tag_name(tag)
}

/// `</tag>`
pub open spec fn close_full(tag: Tag) -> Seq<char> {
    close_pat(tag) + seq!['>']
}

/// A trimmed line that opens a block: it starts with `<tag` and holds a `>`.
pub open spec fn opens_block(t: Seq<char>, tag: Tag) -> bool {
    starts_with(t, open_pat(tag)) && (contains_char(t, '>') || ends_with_char(t, '>'))
}

/// What follows the first `>` of an opening trimmed line, when it is kept as content:
/// it is not blank and does not start (after trimming) with `</tag`.
pub open spec fn inline_after(t: Seq<char>, tag: Tag) -> Option<Seq<char>> {
    match find_char(t, '>') {
        Some(p) => {
            let after = t.subrange(p + 1, t.len() as int);
            if trim(after).len() > 0 && !starts_with(trim(after), close_pat(tag)) {
                Some(after)
            } else {
                None
            }
        },
        None => None,
    }
}

/// A trimmed line that closes a block: it starts with `</tag` or holds `</tag>`.
pub open spec fn closes_block(t: Seq<char>, tag: Tag) -> bool {
    starts_with(t, close_pat(tag)) || contains_seq(t, close_full(tag))
}

/// On an opening line `t` (trimmed) that closes its block too: the text between the
/// first `>` and the first `</tag` after it.
pub open spec fn one_line_content(t: Seq<char>, tag: Tag) -> Option<Seq<char>> {
    match find_char(t, '>') {
        Some(p) => {
            let after = t.subrange(p + 1, t.len() as int);
            match find_seq(after, close_pat(tag)) {
                Some(q) => Some(after.subrange(0, q)),
                None => None,
            }
        },
        None => None,
    }
}

/// The content of a block opened and closed on one line, kept when it is not blank.
pub open spec fn one_line_piece(x: Seq<char>) -> Option<Seq<char>> {
    if trim(x).len() > 0 {
        Some(x)
    } else {
        None
    }
}

/// What precedes `</tag` on a closing (untrimmed) line, when it is not blank.
pub open spec fn before_close(line: Seq<char>, tag: Tag) -> Option<Seq<char>> {
    match find_seq(line, close_pat(tag)) {
        Some(p) => {
            let before = line.subrange(0, p);
            if trim(before).len() > 0 {
                Some(before)
            } else {
                None
            }
        },
        None => None,
    }
}

/// `pieces` with the piece `x` appended when there is one.
pub open spec fn push_opt(pieces: Seq<Seq<char>>, x: Option<Seq<char>>) -> Seq<Seq<char>> {
    match x {
        Some(y) => pieces.push(y),
        None => pieces,
    }
}

/// The state of a scan over the lines of a component.
pub struct ScanState {
    /// Inside a block.
    pub in_block: bool,
    /// The scan has stopped (a single-block scan saw the closing tag).
    pub done: bool,
    /// Start line of the current block.
    pub start: nat,
    /// Lines (or parts of lines) of the current block.
    pub pieces: Seq<Seq<char>>,
    /// Nested opening tags of the current block not closed yet.
    pub depth: nat,
    /// Blocks completed so far.
    pub blocks: Seq<SpecBlock>,
}

pub open spec fn scan_init() -> ScanState {
    ScanState { in_block: false, done: false, start: 0, pieces: seq![], depth: 0, blocks: seq![] }
}

/// The state after an opening line `t` (trimmed) at line `i`.
pub open spec fn open_state(st: ScanState, i: nat, t: Seq<char>, tag: Tag) -> ScanState {
    match inline_after(t, tag) {
        Some(a) => ScanState { in_block: true, start: i, pieces: seq![a], ..st },
        None => ScanState { in_block: true, start: i + 1, pieces: seq![], ..st },
    }
}

/// One line of a scan that collects every `<script>` block (Svelte): a block ends at
/// its closing line (possibly its opening line) and is kept when it holds a piece; an
/// unterminated block is dropped.
pub open spec fn multi_step(st: ScanState, i: nat, line: Seq<char>, tag: Tag) -> ScanState {
    let t = trim(line);
    if !st.in_block {
        if opens_block(t, tag) {
            match one_line_content(t, tag) {
                Some(x) => if trim(x).len() > 0 {
                    ScanState {
                        blocks: st.blocks.push(
                            SpecBlock { content: join_lines(seq![x]), start_line: i },
                        ),
                        ..st
                    }
                } else {
                    st
                },
                None => open_state(st, i, t, tag),
            }
        } else {
            st
        }
    } else if closes_block(t, tag) {
        let pieces = push_opt(st.pieces, before_close(line, tag));
        let blocks = if pieces.len() > 0 {
            st.blocks.push(SpecBlock { content: join_lines(pieces), start_line: st.start })
        } else {
            st.blocks
        };
        ScanState { in_block: false, pieces: seq![], blocks, ..st }
    } else {
        ScanState { pieces: st.pieces.push(line), ..st }
    }
}

pub open spec fn multi_scan(ls: Seq<Seq<char>>, n: nat, tag: Tag) -> ScanState
    decreases n,
{
    if n == 0 || n > ls.len() {
        scan_init()
    } else {
        multi_step(multi_scan(ls, (n - 1) as nat, tag), (n - 1) as nat, ls[n - 1], tag)
    }
}

/// The `<script>` blocks of a Svelte component, in order.
pub open spec fn svelte_script_blocks(src: Seq<char>) -> Seq<SpecBlock> {
    multi_scan(lines(src), lines(src).len(), Tag::Script).blocks
}

/// Tags whose blocks may hold nested blocks of the same tag (`<template v-if>` inside
/// a Vue `<template>`).
pub open spec fn nests(tag: Tag) -> bool {
    tag == Tag::Template
}

/// One line of a scan that stops at the end of the first block (Vue): lines after the
/// opening tag are collected up to the closing line that matches it (nested blocks of a
/// nesting tag are kept whole), or to the end of the file; a block opened and closed on
/// one line holds the text between its tags.
pub open spec fn single_step(st: ScanState, i: nat, line: Seq<char>, tag: Tag) -> ScanState {
    let t = trim(line);
    if st.done {
        st
    } else if !st.in_block {
        if opens_block(t, tag) {
            match one_line_content(t, tag) {
                Some(x) => ScanState {
                    in_block: true,
                    done: true,
                    start: i,
                    pieces: push_opt(seq![], one_line_piece(x)),
                    ..st
                },
                None => open_state(st, i, t, tag),
            }
        } else {
            st
        }
    } else if nests(tag) && enters(t, tag) {
        ScanState {
            depth: if one_line_content(t, tag) is Some {
                st.depth
            } else {
                st.depth + 1
            },
            pieces: st.pieces.push(line),
            ..st
        }
    } else if closes_block(t, tag) {
        if st.depth > 0 {
            ScanState { depth: (st.depth - 1) as nat, pieces: st.pieces.push(line), ..st }
        } else {
            ScanState { done: true, pieces: push_opt(st.pieces, before_close(line, tag)), ..st }
        }
    } else {
        ScanState { pieces: st.pieces.push(line), ..st }
    }
}

pub open spec fn single_scan(ls: Seq<Seq<char>>, n: nat, tag: Tag) -> ScanState
    decreases n,
{
    if n == 0 || n > ls.len() {
        scan_init()
    } else {
        single_step(single_scan(ls, (n - 1) as nat, tag), (n - 1) as nat, ls[n - 1], tag)
    }
}

/// The first `tag` block of a Vue component, if it holds any piece.
pub open spec fn vue_block(src: Seq<char>, tag: Tag) -> Option<SpecBlock> {
    let st = single_scan(lines(src), lines(src).len(), tag);
    if st.pieces.len() == 0 {
        None
    } else {
        Some(SpecBlock { content: join_lines(st.pieces), start_line: st.start })
    }
}

/// A trimmed line that starts a `<script>` or `<style>` region of a Svelte template scan.
pub open spec fn enters(t: Seq<char>, tag: Tag) -> bool {
    starts_with(t, open_pat(tag)) && contains_char(t, '>')
}

/// One line of the Svelte template scan: non-blank lines outside `<script>` and
/// `<style>` regions are kept (`in_block` tracks scripts, `done` tracks styles); a tag
/// line is never kept, and a region opened and closed on one line ends there.
pub open spec fn template_step(st: ScanState, i: nat, line: Seq<char>) -> ScanState {
    let t = trim(line);
    if enters(t, Tag::Script) {
        ScanState { in_block: one_line_content(t, Tag::Script) is None, ..st }
    } else if st.in_block && closes_block(t, Tag::Script) {
        ScanState { in_block: false, ..st }
    } else if enters(t, Tag::Style) {
        ScanState { done: one_line_content(t, Tag::Style) is None, ..st }
    } else if st.done && closes_block(t, Tag::Style) {
        ScanState { done: false, ..st }
    } else if !st.in_block && !st.done && t.len() > 0 {
        ScanState {
            start: if st.pieces.len() == 0 {
                i
            } else {
                st.start
            },
            pieces: st.pieces.push(line),
            ..st
        }
    } else {
        st
    }
}

pub open spec fn template_scan(ls: Seq<Seq<char>>, n: nat) -> ScanState
    decreases n,
{
    if n == 0 || n > ls.len() {
        scan_init()
    } else {
        template_step(template_scan(ls, (n - 1) as nat), (n - 1) as nat, ls[n - 1])
    }
}

/// The template of a Svelte component: every non-blank line outside `<script>` and
/// `<style>` regions, starting at the first such line.
pub open spec fn svelte_template_block(src: Seq<char>) -> Option<SpecBlock> {
    let st = template_scan(lines(src), lines(src).len());
    if st.pieces.len() == 0 {
        None
    } else {
        Some(SpecBlock { content: join_lines(st.pieces), start_line: st.start })
    }
}

/// A block whose lines all lie among the first `n` lines of its file.
pub open spec fn block_within(b: SpecBlock, n: nat) -> bool {
    &&& b.start_line + 1 <= n
    &&& b.start_line + lines(b.content).len() <= n
}

/// Each block ends before the next one starts: the blocks come in file order and share
/// no line.
pub open spec fn blocks_in_order(bs: Seq<SpecBlock>) -> bool {
    forall|i: int, j: int|
        0 <= i < j < bs.len() ==> #[trigger] bs[i].start_line + lines(bs[i].content).len()
            <= #[trigger] bs[j].start_line
}

/// A block whose template unit can be numbered without overflow.
pub open spec fn block_fits(b: SpecBlock) -> bool {
    &&& b.start_line + 1 <= usize::MAX
    &&& b.start_line + lines(b.content).len() <= usize::MAX
}

// ---------------------------------------------------------------------------
// Executable scanners
// ---------------------------------------------------------------------------

/// Lines collected for a block, joined by `'\n'` as they come.
pub(crate) struct Pieces {
    pub(crate) text: Vec<char>,
    pub(crate) count: usize,
    pub(crate) items: Ghost<Seq<Seq<char>>>,
}

impl Pieces {
    pub(crate) open spec fn wf(&self) -> bool {
        &&& self.text@ == join_lines(self.items@)
        &&& self.count == self.items@.len()
        &&& forall|k: int| 0 <= k < self.items@.len() ==> has_no_newline(#[trigger] self.items@[k])
    }

    pub(crate) fn new() -> (p: Pieces)
        ensures
            p.wf(),
            p.items@ == Seq::<Seq<char>>::empty(),
    {
        Pieces { text: Vec::new(), count: 0, items: Ghost(Seq::empty()) }
    }

    pub(crate) fn push(&mut self, src: &Vec<char>, lo: usize, hi: usize)
        requires
            old(self).wf(),
            old(self).count < usize::MAX,
            lo <= hi <= src.len(),
            has_no_newline(src@.subrange(lo as int, hi as int)),
        ensures
            final(self).wf(),
            final(self).items@ == old(self).items@.push(src@.subrange(lo as int, hi as int)),
    {
        let ghost x = src@.subrange(lo as int, hi as int);
        if self.count > 0 {
            self.text.push('\n');
        }
        push_range(&mut self.text, src, lo, hi);
        self.count = self.count + 1;
        let ghost old_items = self.items@;
        self.items = Ghost(old_items.push(x));
        proof {
            assert(self.items@.drop_last() =~= old_items);
            if old_items.len() == 0 {
                assert(self.text@ =~= x);
            } else {
                assert(self.text@ =~= join_lines(old_items) + seq!['\n'] + x);
            }
        }
    }
}

pub(crate) fn tag_chars(tag: Tag) -> (v: Vec<char>)
    ensures
        v@ == tag_name(tag),
{
    match tag {
        Tag::Script => {
            let v = vec!['s', 'c', 'r', 'i', 'p', 't'];
            assert(v@ =~= tag_name(tag));
            v
        },
        Tag::Template => {
            let v = vec!['t', 'e', 'm', 'p', 'l', 'a', 't', 'e'];
            assert(v@ =~= tag_name(tag));
            v
        },
        Tag::Style => {
            let v = vec!['s', 't', 'y', 'l', 'e'];
            assert(v@ =~= tag_name(tag));
            v
        },
    }
}

/// The three patterns of a tag: `<tag`, `</tag` and `</tag>`.
pub(crate) struct Patterns {
    pub(crate) open: Vec<char>,
    pub(crate) close: Vec<char>,
    pub(crate) close_full: Vec<char>,
}

pub(crate) fn patterns(tag: Tag) -> (p: Patterns)
    ensures
        p.open@ == open_pat(tag),
        p.close@ == close_pat(tag),
        p.close_full@ == close_full(tag),
{
    let name = tag_chars(tag);
    let mut open = vec!['<'];
    let mut close = vec!['<', '/'];
    let mut i: usize = 0;
    while i < name.len()
        invariant
            i <= name.len(),
            open@ == seq!['<'] + name@.take(i as int),
            close@ == seq!['<', '/'] + name@.take(i as int),
        decreases name.len() - i,
    {
        open.push(name[i]);
        close.push(name[i]);
        assert(name@.take(i + 1) =~= name@.take(i as int).push(name@[i as int]));
        assert(open@ =~= seq!['<'] + name@.take(i + 1));
        assert(close@ =~= seq!['<', '/'] + name@.take(i + 1));
        i = i + 1;
    }
    assert(name@.take(name.len() as int) =~= name@);
    let mut close_full = close.clone();
    close_full.push('>');
    assert(close_full@ =~= close_pat(tag) + seq!['>']);
    Patterns { open, close, close_full }
}

/// Whether the trimmed line `src[ta..tb]` opens a `tag` block.
pub(crate) fn line_opens(src: &Vec<char>, ta: usize, tb: usize, pats: &Patterns, tag: Tag) -> (b: bool)
    requires
        ta <= tb <= src.len(),
        pats.open@ == open_pat(tag),
    ensures
        b == opens_block(src@.subrange(ta as int, tb as int), tag),
{
    let r = starts_with_at(src, ta, tb, &pats.open) && contains_char_at(src, ta, tb, '>');
    proof {
        let t = src@.subrange(ta as int, tb as int);
        if ends_with_char(t, '>') {
            assert(t[t.len() - 1] == '>');
        }
    }
    r
}

/// Whether the trimmed line `src[ta..tb]` closes a `tag` block.
pub(crate) fn line_closes(src: &Vec<char>, ta: usize, tb: usize, pats: &Patterns, tag: Tag) -> (b: bool)
    requires
        ta <= tb <= src.len(),
        pats.close@ == close_pat(tag),
        pats.close_full@ == close_full(tag),
    ensures
        b == closes_block(src@.subrange(ta as int, tb as int), tag),
{
    starts_with_at(src, ta, tb, &pats.close) || contains_seq_at(src, ta, tb, &pats.close_full)
}

/// The range of `inline_after` for the trimmed line `src[ta..tb]`.
pub(crate) fn inline_range(src: &Vec<char>, ta: usize, tb: usize, pats: &Patterns, tag: Tag) -> (r: Option<
    (usize, usize),
>)
    requires
        ta <= tb <= src.len(),
        pats.close@ == close_pat(tag),
    ensures
        match r {
            Some((a, b)) => ta <= a <= b == tb && inline_after(
                src@.subrange(ta as int, tb as int),
                tag,
            ) == Some(src@.subrange(a as int, b as int)),
            None => inline_after(src@.subrange(ta as int, tb as int), tag) is None,
        },
{
    let ghost t = src@.subrange(ta as int, tb as int);
    match find_char_at(src, ta, tb, '>') {
        Some(p) => {
            let (aa, ab) = trim_range(src, p + 1, tb);
            proof {
                assert(t.subrange(p - ta + 1, t.len() as int) =~= src@.subrange(p + 1, tb as int));
            }
            if aa < ab && !starts_with_at(src, aa, ab, &pats.close) {
                Some((p + 1, tb))
            } else {
                None
            }
        },
        None => None,
    }
}

/// The range of `before_close` for the line `src[lo..hi]`.
pub(crate) fn before_range(src: &Vec<char>, lo: usize, hi: usize, pats: &Patterns, tag: Tag) -> (r: Option<
    (usize, usize),
>)
    requires
        lo <= hi <= src.len(),
        pats.close@ == close_pat(tag),
    ensures
        match r {
            Some((a, b)) => lo == a <= b <= hi && before_close(
                src@.subrange(lo as int, hi as int),
                tag,
            ) == Some(src@.subrange(a as int, b as int)),
            None => before_close(src@.subrange(lo as int, hi as int), tag) is None,
        },
{
    let ghost line = src@.subrange(lo as int, hi as int);
    match find_seq_at(src, lo, hi, &pats.close) {
        Some(p) => {
            let (ba, bb) = trim_range(src, lo, p);
            proof {
                assert(line.subrange(0, p - lo) =~= src@.subrange(lo as int, p as int));
            }
            if ba < bb {
                Some((lo, p))
            } else {
                None
            }
        },
        None => None,
    }
}

/// The range of `one_line_content` for the trimmed line `src[ta..tb]`.
pub(crate) fn one_line_range(src: &Vec<char>, ta: usize, tb: usize, pats: &Patterns, tag: Tag) -> (r: Option<
    (usize, usize),
>)
    requires
        ta <= tb <= src.len(),
        pats.close@ == close_pat(tag),
    ensures
        match r {
            Some((a, b)) => ta <= a <= b <= tb && one_line_content(
                src@.subrange(ta as int, tb as int),
                tag,
            ) == Some(src@.subrange(a as int, b as int)),
            None => one_line_content(src@.subrange(ta as int, tb as int), tag) is None,
        },
{
    let ghost t = src@.subrange(ta as int, tb as int);
    match find_char_at(src, ta, tb, '>') {
        Some(p) => {
            let ghost after = t.subrange(p - ta + 1, t.len() as int);
            assert(after =~= src@.subrange(p + 1, tb as int));
            match find_seq_at(src, p + 1, tb, &pats.close) {
                Some(q) => {
                    assert(after.subrange(0, q - (p + 1)) =~= src@.subrange(p + 1, q as int));
                    Some((p + 1, q))
                },
                None => None,
            }
        },
        None => None,
    }
}

/// Whether the trimmed line `src[ta..tb]` starts with `<tag` and holds a `>`.
pub(crate) fn line_enters(src: &Vec<char>, ta: usize, tb: usize, pats: &Patterns, tag: Tag) -> (b: bool)
    requires
        ta <= tb <= src.len(),
        pats.open@ == open_pat(tag),
    ensures
        b == enters(src@.subrange(ta as int, tb as int), tag),
{
    starts_with_at(src, ta, tb, &pats.open) && contains_char_at(src, ta, tb, '>')
}

pub proof fn lemma_sub_no_newline(s: Seq<char>, a: int, b: int, c: int, d: int)
    requires
        0 <= a <= c <= d <= b <= s.len(),
        has_no_newline(s.subrange(a, b)),
    ensures
        has_no_newline(s.subrange(c, d)),
{
    assert forall|k: int| 0 <= k < d - c implies s.subrange(c, d)[k] != '\n' by {
        assert(s.subrange(c, d)[k] == s.subrange(a, b)[k + c - a]);
    }
}

/// The first `tag` block of a Vue component (used for `<script>`, matching
/// `<script setup>`, `<script lang="ts">` and the like, and for `<template>`).
pub fn first_block(source: &str, tag: Tag) -> (r: Option<SourceBlock>)
    ensures
        match r {
            Some(b) => vue_block(source@, tag) == Some(b@) && block_fits(b@) && block_within(
                b@,
                lines(source@).len(),
            ),
            None => vue_block(source@, tag) is None,
        },
{
    let src = chars_of(source);
    let ranges = line_ranges(&src);
    let pats = patterns(tag);
    let ghost ls = lines(src@);
    proof {
        lemma_lines(src@);
    }
    let nesting = match tag {
        Tag::Template => true,
        _ => false,
    };
    let mut in_block = false;
    let mut done = false;
    let mut start: usize = 0;
    let mut depth: usize = 0;
    let mut pieces = Pieces::new();
    let n = ranges.len();
    for k in 0..n
        invariant
            n == ranges.len() == ls.len(),
            ls == lines(src@),
            ls.len() <= src.len(),
            forall|j: int| 0 <= j < ls.len() ==> has_no_newline(#[trigger] ls[j]),
            forall|j: int|
                0 <= j < ranges.len() ==> {
                    &&& (#[trigger] ranges@[j]).0 <= ranges@[j].1 <= src.len()
                    &&& src@.subrange(ranges@[j].0 as int, ranges@[j].1 as int) == ls[j]
                },
            pats.open@ == open_pat(tag),
            pats.close@ == close_pat(tag),
            pats.close_full@ == close_full(tag),
            pieces.wf(),
            nesting == nests(tag),
            single_scan(ls, k as nat, tag) == (ScanState {
                in_block,
                done,
                start: start as nat,
                pieces: pieces.items@,
                depth: depth as nat,
                blocks: Seq::<SpecBlock>::empty(),
            }),
            in_block ==> start + pieces.count <= k,
            !in_block ==> pieces.count == 0,
            depth <= k,
    {
        let ghost st = single_scan(ls, k as nat, tag);
        let ghost line = ls[k as int];
        assert(single_scan(ls, (k + 1) as nat, tag) == single_step(st, k as nat, line, tag));
        if !done {
            let (lo, hi) = ranges[k];
            let (ta, tb) = trim_range(&src, lo, hi);
            if !in_block {
                if line_opens(&src, ta, tb, &pats, tag) {
                    assert(pieces.items@ =~= Seq::<Seq<char>>::empty());
                    in_block = true;
                    match one_line_range(&src, ta, tb, &pats, tag) {
                        Some((a, b)) => {
                            done = true;
                            start = k;
                            let (xa, xb) = trim_range(&src, a, b);
                            if xa < xb {
                                proof {
                                    lemma_sub_no_newline(src@, lo as int, hi as int, a as int, b as int);
                                }
                                pieces.push(&src, a, b);
                                assert(pieces.items@ =~= seq![src@.subrange(a as int, b as int)]);
                            } else {
                                assert(pieces.items@ =~= push_opt(seq![], None));
                            }
                        },
                        None => {
                            start = k + 1;
                            match inline_range(&src, ta, tb, &pats, tag) {
                                Some((a, b)) => {
                                    proof {
                                        lemma_sub_no_newline(src@, lo as int, hi as int, a as int, b as int);
                                    }
                                    pieces.push(&src, a, b);
                                    start = k;
                                    assert(pieces.items@ =~= seq![src@.subrange(a as int, b as int)]);
                                },
                                None => {},
                            }
                        },
                    }
                }
            } else if nesting && line_enters(&src, ta, tb, &pats, tag) {
                if one_line_range(&src, ta, tb, &pats, tag).is_none() {
                    depth = depth + 1;
                }
                pieces.push(&src, lo, hi);
            } else if line_closes(&src, ta, tb, &pats, tag) {
                if depth > 0 {
                    depth = depth - 1;
                    pieces.push(&src, lo, hi);
                } else {
                    match before_range(&src, lo, hi, &pats, tag) {
                        Some((a, b)) => {
                            proof {
                                lemma_sub_no_newline(src@, lo as int, hi as int, a as int, b as int);
                            }
                            pieces.push(&src, a, b);
                        },
                        None => {},
                    }
                    done = true;
                }
            } else {
                pieces.push(&src, lo, hi);
            }
        }
    }
    if pieces.count == 0 {
        None
    } else {
        proof {
            lemma_join_lines_count(pieces.items@);
        }
        Some(SourceBlock { content: string_of(&pieces.text), start_line: start })
    }
}

} // verus!
