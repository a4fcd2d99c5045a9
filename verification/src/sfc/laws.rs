//! What the block scanners give on well-formed components: each `<script>` block whose
//! opening tag stands on a line of its own and whose closing line begins with its
//! closing tag yields exactly the lines between its tags.

use vstd::prelude::*;

use crate::sfc::blocks::{
    before_close, close_full, close_pat, closes_block, enters, inline_after, multi_scan,
    multi_step, one_line_content, open_pat, opens_block, scan_init, single_scan, single_step,
    nests, svelte_script_blocks, svelte_template_block, template_scan, template_step,
    vue_block, ScanState, SpecBlock, Tag,
};
use crate::text::{
    contains_char, find_char, find_seq_from, is_ws, join_lines, lead_end, lines, starts_with,
    trail_start, trim,
};

verus! {

/// A line that is a whole opening tag: trimmed, it opens a `tag` block and its first
/// `>` is its last character.
pub open spec fn bare_open_line(l: Seq<char>, tag: Tag) -> bool {
    let t = trim(l);
    opens_block(t, tag) && find_char(t, '>') == Some(t.len() - 1)
}

/// A line that, trimmed, begins with the closing tag `</tag` (whatever follows it).
pub open spec fn bare_close_line(l: Seq<char>, tag: Tag) -> bool {
    starts_with(trim(l), close_pat(tag))
}

/// A line inside a first block that the scan keeps as content: it closes no block and,
/// for a tag whose blocks nest, opens none either (other opening lines are content).
pub open spec fn inner_line(l: Seq<char>, tag: Tag) -> bool {
    !closes_block(trim(l), tag) && !(nests(tag) && enters(trim(l), tag))
}

/// A line that neither opens nor closes a `tag` block.
pub open spec fn plain_line(l: Seq<char>, tag: Tag) -> bool {
    !opens_block(trim(l), tag) && !closes_block(trim(l), tag)
}

proof fn lemma_lead_end(t: Seq<char>, i: int)
    requires
        0 <= i <= t.len(),
    ensures
        i <= lead_end(t, i) <= t.len(),
        forall|j: int| i <= j < lead_end(t, i) ==> is_ws(#[trigger] t[j]),
        lead_end(t, i) < t.len() ==> !is_ws(t[lead_end(t, i)]),
    decreases t.len() - i,
{
    if i < t.len() && is_ws(t[i]) {
        lemma_lead_end(t, i + 1);
    }
}

proof fn lemma_lead_end_all_ws(t: Seq<char>, i: int)
    requires
        0 <= i <= t.len(),
        forall|j: int| i <= j < t.len() ==> is_ws(#[trigger] t[j]),
    ensures
        lead_end(t, i) == t.len(),
    decreases t.len() - i,
{
    if i < t.len() {
        lemma_lead_end_all_ws(t, i + 1);
    }
}

proof fn lemma_trail_start(t: Seq<char>, lo: int, j: int)
    requires
        0 <= lo <= j <= t.len(),
    ensures
        lo <= trail_start(t, lo, j) <= j,
    decreases j - lo,
{
    if lo < j && is_ws(t[j - 1]) {
        lemma_trail_start(t, lo, j - 1);
    }
}

/// A blank text trims to nothing.
proof fn lemma_trim_blank(t: Seq<char>)
    requires
        forall|j: int| 0 <= j < t.len() ==> is_ws(#[trigger] t[j]),
    ensures
        trim(t).len() == 0,
{
    lemma_lead_end_all_ws(t, 0);
    let a = lead_end(t, 0);
    assert(trail_start(t, a, t.len() as int) == a);
}

proof fn lemma_close_pat(tag: Tag)
    ensures
        close_pat(tag).len() > 2,
        close_pat(tag)[0] == '<',
        close_full(tag).len() == close_pat(tag).len() + 1,
        close_full(tag).subrange(0, close_pat(tag).len() as int) == close_pat(tag),
{
    assert(close_full(tag).subrange(0, close_pat(tag).len() as int) =~= close_pat(tag));
}

/// Before the first non-blank character of `l` no `</tag` starts, and one starts there.
proof fn lemma_find_close_at(l: Seq<char>, tag: Tag, a: int, i: int)
    requires
        0 <= i <= a,
        a + close_pat(tag).len() <= l.len(),
        forall|j: int| 0 <= j < a ==> is_ws(#[trigger] l[j]),
        l.subrange(a, a + close_pat(tag).len()) == close_pat(tag),
    ensures
        find_seq_from(l, close_pat(tag), i) == Some(a),
    decreases a - i,
{
    lemma_close_pat(tag);
    let p = close_pat(tag);
    if i < a {
        assert(l.subrange(i, i + p.len())[0] == l[i]);
        assert(!is_ws('<'));
        assert(l.subrange(i, i + p.len()) != p);
        lemma_find_close_at(l, tag, a, i + 1);
    }
}

/// A whole closing-tag line closes the block and keeps nothing of itself.
pub proof fn lemma_bare_close_line(l: Seq<char>, tag: Tag)
    requires
        bare_close_line(l, tag),
    ensures
        closes_block(trim(l), tag),
        before_close(l, tag) is None,
{
    lemma_close_pat(tag);
    let t = trim(l);
    let p = close_pat(tag);
    lemma_lead_end(l, 0);
    let a = lead_end(l, 0);
    lemma_trail_start(l, a, l.len() as int);
    assert(l.subrange(a, a + p.len()) =~= t.subrange(0, p.len() as int));
    lemma_find_close_at(l, tag, a, 0);
    let before = l.subrange(0, a);
    assert forall|j: int| 0 <= j < before.len() implies is_ws(#[trigger] before[j]) by {
        assert(before[j] == l[j]);
    }
    lemma_trim_blank(before);
}

/// A whole opening-tag line opens a block that starts on the next line and is not
/// closed on its own line.
pub proof fn lemma_bare_open_line(l: Seq<char>, tag: Tag)
    requires
        bare_open_line(l, tag),
    ensures
        opens_block(trim(l), tag),
        one_line_content(trim(l), tag) is None,
        inline_after(trim(l), tag) is None,
{
    lemma_close_pat(tag);
    let t = trim(l);
    let after = t.subrange(t.len() as int, t.len() as int);
    assert(after.len() == 0);
    assert(find_seq_from(after, close_pat(tag), 0) is None);
    assert(trim(after).len() == 0) by {
        lemma_trim_blank(after);
    }
}

/// Each pair `(o, c)` of `pairs` marks the opening line `o` and the closing line `c`
/// of a block; the pairs come in order and do not overlap.
pub open spec fn pairs_in_order(ls: Seq<Seq<char>>, pairs: Seq<(int, int)>) -> bool {
    &&& forall|k: int|
        0 <= k < pairs.len() ==> 0 <= (#[trigger] pairs[k]).0 < pairs[k].1 < ls.len()
    &&& forall|i: int, j: int|
        0 <= i < j < pairs.len() ==> (#[trigger] pairs[i]).1 < (#[trigger] pairs[j]).0
}

/// A line that is no tag line of `pairs`.
pub open spec fn off_pairs(pairs: Seq<(int, int)>, n: int) -> bool {
    forall|k: int| 0 <= k < pairs.len() ==> n != (#[trigger] pairs[k]).0 && n != pairs[k].1
}

/// Line `n` is what `pairs` says it is: a whole opening tag, a whole closing tag, or a
/// line that neither opens nor closes a block.
pub open spec fn line_fits(ls: Seq<Seq<char>>, pairs: Seq<(int, int)>, n: int, tag: Tag) -> bool {
    &&& forall|k: int|
        0 <= k < pairs.len() && n == (#[trigger] pairs[k]).0 ==> bare_open_line(ls[n], tag)
    &&& forall|k: int|
        0 <= k < pairs.len() && n == (#[trigger] pairs[k]).1 ==> bare_close_line(ls[n], tag)
    &&& off_pairs(pairs, n) ==> plain_line(ls[n], tag)
}

/// The lines `ls` are a well-formed component for `tag` with the blocks `pairs`: the
/// opening tag of each block stands on a line of its own, its closing line begins with
/// the closing tag, blocks do not nest or overlap, and
/// every other line neither opens nor closes a block.
pub open spec fn well_formed(ls: Seq<Seq<char>>, pairs: Seq<(int, int)>, tag: Tag) -> bool {
    &&& pairs_in_order(ls, pairs)
    &&& forall|n: int| 0 <= n < ls.len() ==> #[trigger] line_fits(ls, pairs, n, tag)
}

/// The block between the tag lines `o` and `c`: the lines strictly between them,
/// starting on the line after `o`.
pub open spec fn block_between(ls: Seq<Seq<char>>, o: int, c: int) -> SpecBlock {
    SpecBlock { content: join_lines(ls.subrange(o + 1, c)), start_line: (o + 1) as nat }
}

/// The blocks of `pairs` that hold at least one line, in order.
pub open spec fn paired_blocks(ls: Seq<Seq<char>>, pairs: Seq<(int, int)>) -> Seq<SpecBlock>
    decreases pairs.len(),
{
    if pairs.len() == 0 {
        seq![]
    } else {
        let rest = paired_blocks(ls, pairs.drop_last());
        let (o, c) = pairs.last();
        if c > o + 1 {
            rest.push(block_between(ls, o, c))
        } else {
            rest
        }
    }
}

/// The state of the `<script>` scan of a well-formed component after `n` lines.
spec fn multi_expected(ls: Seq<Seq<char>>, pairs: Seq<(int, int)>, n: int) -> ScanState
    decreases pairs.len(),
{
    if pairs.len() == 0 {
        scan_init()
    } else {
        let (o, c) = pairs.last();
        if n <= o {
            multi_expected(ls, pairs.drop_last(), n)
        } else if n <= c {
            ScanState {
                in_block: true,
                done: false,
                start: (o + 1) as nat,
                pieces: ls.subrange(o + 1, n),
                depth: 0,
                blocks: paired_blocks(ls, pairs.drop_last()),
            }
        } else {
            ScanState {
                in_block: false,
                done: false,
                start: (o + 1) as nat,
                pieces: seq![],
                depth: 0,
                blocks: paired_blocks(ls, pairs),
            }
        }
    }
}

proof fn lemma_pairs_prefix(ls: Seq<Seq<char>>, pairs: Seq<(int, int)>)
    requires
        pairs_in_order(ls, pairs),
        pairs.len() > 0,
    ensures
        pairs_in_order(ls, pairs.drop_last()),
        forall|k: int|
            0 <= k < pairs.len() - 1 ==> (#[trigger] pairs[k]).1 < pairs.last().0,
{
    let d = pairs.drop_last();
    assert forall|i: int, j: int| 0 <= i < j < d.len() implies (#[trigger] d[i]).1 < (#[trigger] d[j]).0 by {
        assert(d[i] == pairs[i] && d[j] == pairs[j]);
    }
    assert forall|k: int| 0 <= k < d.len() implies 0 <= (#[trigger] d[k]).0 < d[k].1 < ls.len() by {
        assert(d[k] == pairs[k]);
    }
    assert forall|k: int| 0 <= k < pairs.len() - 1 implies (#[trigger] pairs[k]).1 < pairs.last().0 by {
        assert(pairs[k].1 < pairs[pairs.len() - 1].0);
    }
}

/// Once every pair has been passed, the scan is outside any block.
proof fn lemma_multi_expected_closed(ls: Seq<Seq<char>>, pairs: Seq<(int, int)>, n: int)
    requires
        pairs_in_order(ls, pairs),
        forall|k: int| 0 <= k < pairs.len() ==> (#[trigger] pairs[k]).1 < n,
    ensures
        !multi_expected(ls, pairs, n).in_block,
        multi_expected(ls, pairs, n).pieces.len() == 0,
        multi_expected(ls, pairs, n).blocks == paired_blocks(ls, pairs),
{
    if pairs.len() > 0 {
        assert(pairs[pairs.len() - 1].1 < n);
    }
}

/// One line of the `<script>` scan of a well-formed component.
proof fn lemma_multi_step(ls: Seq<Seq<char>>, pairs: Seq<(int, int)>, n: int, tag: Tag)
    requires
        pairs_in_order(ls, pairs),
        0 <= n < ls.len(),
        line_fits(ls, pairs, n, tag),
    ensures
        multi_step(multi_expected(ls, pairs, n), n as nat, ls[n], tag) == multi_expected(
            ls,
            pairs,
            n + 1,
        ),
    decreases pairs.len(),
{
    if pairs.len() == 0 {
        assert(off_pairs(pairs, n));
    } else {
        lemma_pairs_prefix(ls, pairs);
        let d = pairs.drop_last();
        let (o, c) = pairs.last();
        let last = pairs.len() - 1;
        if n < o {
            assert(line_fits(ls, d, n, tag)) by {
                assert forall|k: int| 0 <= k < d.len() && n == (#[trigger] d[k]).0 implies bare_open_line(ls[n], tag) by {
                    assert(d[k] == pairs[k]);
                }
                assert forall|k: int| 0 <= k < d.len() && n == (#[trigger] d[k]).1 implies bare_close_line(ls[n], tag) by {
                    assert(d[k] == pairs[k]);
                }
                if off_pairs(d, n) {
                    assert forall|k: int| 0 <= k < pairs.len() implies n != (#[trigger] pairs[k]).0 && n != pairs[k].1 by {
                        if k < last {
                            assert(d[k] == pairs[k]);
                        }
                    }
                }
            }
            lemma_multi_step(ls, d, n, tag);
        } else if n == o {
            assert(bare_open_line(ls[n], tag)) by {
                assert(n == pairs[last].0);
            }
            lemma_bare_open_line(ls[n], tag);
            lemma_multi_expected_closed(ls, d, n);
            assert(ls.subrange(o + 1, n + 1) =~= Seq::<Seq<char>>::empty());
        } else if n < c {
            assert(off_pairs(pairs, n)) by {
                assert forall|k: int| 0 <= k < pairs.len() implies n != (#[trigger] pairs[k]).0 && n != pairs[k].1 by {
                    if k < last {
                        assert(pairs[k].1 < o);
                    }
                }
            }
            assert(ls.subrange(o + 1, n + 1) =~= ls.subrange(o + 1, n).push(ls[n]));
        } else if n == c {
            assert(bare_close_line(ls[n], tag)) by {
                assert(n == pairs[last].1);
            }
            lemma_bare_close_line(ls[n], tag);
            let st = multi_expected(ls, pairs, n);
            assert(st.pieces.len() == c - o - 1);
            assert(multi_step(st, n as nat, ls[n], tag) =~= multi_expected(ls, pairs, n + 1));
        } else {
            assert(off_pairs(pairs, n)) by {
                assert forall|k: int| 0 <= k < pairs.len() implies n != (#[trigger] pairs[k]).0 && n != pairs[k].1 by {
                    if k < last {
                        assert(pairs[k].1 < o);
                    }
                }
            }
        }
    }
}

proof fn lemma_multi_scan(ls: Seq<Seq<char>>, pairs: Seq<(int, int)>, n: int, tag: Tag)
    requires
        well_formed(ls, pairs, tag),
        0 <= n <= ls.len(),
    ensures
        multi_scan(ls, n as nat, tag) == multi_expected(ls, pairs, n),
    decreases n,
{
    if n == 0 {
        lemma_multi_expected_start(ls, pairs);
    } else {
        lemma_multi_scan(ls, pairs, n - 1, tag);
        assert(line_fits(ls, pairs, n - 1, tag));
        lemma_multi_step(ls, pairs, n - 1, tag);
    }
}

proof fn lemma_multi_expected_start(ls: Seq<Seq<char>>, pairs: Seq<(int, int)>)
    requires
        pairs_in_order(ls, pairs),
    ensures
        multi_expected(ls, pairs, 0) == scan_init(),
    decreases pairs.len(),
{
    if pairs.len() > 0 {
        lemma_pairs_prefix(ls, pairs);
        assert(pairs[pairs.len() - 1].0 >= 0);
        lemma_multi_expected_start(ls, pairs.drop_last());
    }
}

/// The `<script>` blocks of a well-formed Svelte component are exactly the blocks
/// between its tag lines that hold at least one line, in order, each starting on the
/// line after its opening tag.
pub proof fn lemma_svelte_blocks_well_formed(src: Seq<char>, pairs: Seq<(int, int)>)
    requires
        well_formed(lines(src), pairs, Tag::Script),
    ensures
        svelte_script_blocks(src) == paired_blocks(lines(src), pairs),
{
    let ls = lines(src);
    lemma_multi_scan(ls, pairs, ls.len() as int, Tag::Script);
    lemma_multi_expected_closed(ls, pairs, ls.len() as int);
}

/// The first `tag` block of `ls` opens on the line `o`, a whole opening tag, and closes
/// on the line `c`, which begins with `</tag`; no line before `o` opens a block and no
/// line between closes one (nor, for nesting tags, opens one).
pub open spec fn first_block_well_formed(ls: Seq<Seq<char>>, o: int, c: int, tag: Tag) -> bool {
    &&& 0 <= o < c < ls.len()
    &&& bare_open_line(ls[o], tag)
    &&& bare_close_line(ls[c], tag)
    &&& forall|n: int| 0 <= n < o ==> !opens_block(trim(#[trigger] ls[n]), tag)
    &&& forall|n: int| o < n < c ==> inner_line(#[trigger] ls[n], tag)
}

spec fn single_expected(ls: Seq<Seq<char>>, o: int, c: int, n: int) -> ScanState {
    if n <= o {
        scan_init()
    } else if n <= c {
        ScanState {
            in_block: true,
            done: false,
            start: (o + 1) as nat,
            pieces: ls.subrange(o + 1, n),
            depth: 0,
            blocks: seq![],
        }
    } else {
        ScanState {
            in_block: true,
            done: true,
            start: (o + 1) as nat,
            pieces: ls.subrange(o + 1, c),
            depth: 0,
            blocks: seq![],
        }
    }
}

proof fn lemma_single_scan(ls: Seq<Seq<char>>, o: int, c: int, tag: Tag, n: int)
    requires
        first_block_well_formed(ls, o, c, tag),
        0 <= n <= ls.len(),
    ensures
        single_scan(ls, n as nat, tag) == single_expected(ls, o, c, n),
    decreases n,
{
    if n > 0 {
        lemma_single_scan(ls, o, c, tag, n - 1);
        let i = n - 1;
        let st = single_expected(ls, o, c, i);
        if i < o {
            assert(!opens_block(trim(ls[i]), tag));
        } else if i == o {
            lemma_bare_open_line(ls[i], tag);
            assert(ls.subrange(o + 1, n) =~= Seq::<Seq<char>>::empty());
        } else if i < c {
            assert(inner_line(ls[i], tag));
            assert(ls.subrange(o + 1, n) =~= ls.subrange(o + 1, i).push(ls[i]));
        } else if i == c {
            lemma_bare_close_line(ls[i], tag);
            let t = trim(ls[i]);
            assert(t.subrange(0, close_pat(tag).len() as int)[1] == t[1]);
            assert(t[1] == '/');
            assert(open_pat(tag)[1] != '/');
            assert(!starts_with(t, open_pat(tag))) by {
                if starts_with(t, open_pat(tag)) {
                    assert(t.subrange(0, open_pat(tag).len() as int)[1] == t[1]);
                }
            }
            assert(single_step(st, i as nat, ls[i], tag) =~= single_expected(ls, o, c, n));
        }
    }
}

/// In a Vue component whose first `tag` block is well formed (see
/// [`first_block_well_formed`]), the block is exactly the lines between its tag lines,
/// starting on the line after the opening tag (none when they are adjacent).
pub proof fn lemma_vue_block_well_formed(src: Seq<char>, o: int, c: int, tag: Tag)
    requires
        first_block_well_formed(lines(src), o, c, tag),
    ensures
        vue_block(src, tag) == if c > o + 1 {
            Some(block_between(lines(src), o, c))
        } else {
            None
        },
{
    let ls = lines(src);
    lemma_single_scan(ls, o, c, tag, ls.len() as int);
}

/// A Vue component with no line opening a `tag` block has no such block.
pub proof fn lemma_vue_block_absent(src: Seq<char>, tag: Tag)
    requires
        forall|n: int| 0 <= n < lines(src).len() ==> !opens_block(trim(#[trigger] lines(src)[n]), tag),
    ensures
        vue_block(src, tag) is None,
{
    let ls = lines(src);
    assert forall|n: int| 0 <= n <= ls.len() implies #[trigger] single_scan(ls, n as nat, tag) == scan_init() by {
        lemma_single_scan_init(ls, tag, n);
    }
    assert(single_scan(ls, ls.len(), tag) == scan_init());
}

proof fn lemma_single_scan_init(ls: Seq<Seq<char>>, tag: Tag, n: int)
    requires
        forall|k: int| 0 <= k < ls.len() ==> !opens_block(trim(#[trigger] ls[k]), tag),
        0 <= n <= ls.len(),
    ensures
        single_scan(ls, n as nat, tag) == scan_init(),
    decreases n,
{
    if n > 0 {
        lemma_single_scan_init(ls, tag, n - 1);
        assert(!opens_block(trim(ls[n - 1]), tag));
    }
}

/// `<script>` and `<style>` regions of a Svelte component: each `(o, c, tag)` opens with
/// a whole opening tag on line `o` and closes on line `c`, which begins with the closing
/// tag; regions come in order and do not overlap.
pub open spec fn regions_in_order(ls: Seq<Seq<char>>, regions: Seq<(int, int, Tag)>) -> bool {
    &&& forall|k: int|
        0 <= k < regions.len() ==> {
            &&& 0 <= (#[trigger] regions[k]).0 < regions[k].1 < ls.len()
            &&& (regions[k].2 == Tag::Script || regions[k].2 == Tag::Style)
            &&& bare_open_line(ls[regions[k].0], regions[k].2)
            &&& bare_close_line(ls[regions[k].1], regions[k].2)
        }
    &&& forall|i: int, j: int|
        0 <= i < j < regions.len() ==> (#[trigger] regions[i]).1 < (#[trigger] regions[j]).0
}

/// Line `n` lies in one of the regions, tag lines included.
pub open spec fn in_region(regions: Seq<(int, int, Tag)>, n: int) -> bool {
    exists|k: int| 0 <= k < regions.len() && (#[trigger] regions[k]).0 <= n <= regions[k].1
}

/// A Svelte component whose `<script>` and `<style>` regions are `regions`: no line
/// starts a region except their opening lines, and no line inside a region closes it
/// before its closing line.
pub open spec fn template_well_formed(ls: Seq<Seq<char>>, regions: Seq<(int, int, Tag)>) -> bool {
    &&& regions_in_order(ls, regions)
    &&& forall|n: int|
        0 <= n < ls.len() && !(exists|k: int|
            0 <= k < regions.len() && #[trigger] regions[k].0 == n) ==> !enters(
            trim(#[trigger] ls[n]),
            Tag::Script,
        ) && !enters(trim(ls[n]), Tag::Style)
    &&& forall|k: int, n: int|
        0 <= k < regions.len() && (#[trigger] regions[k]).0 < n < regions[k].1 ==> !closes_block(
            trim(#[trigger] ls[n]),
            regions[k].2,
        )
}

/// The indices of the non-blank lines among the first `n` that lie outside every region.
pub open spec fn markup_lines(ls: Seq<Seq<char>>, regions: Seq<(int, int, Tag)>, n: int) -> Seq<int>
    decreases n,
{
    if n <= 0 {
        seq![]
    } else {
        let r = markup_lines(ls, regions, n - 1);
        if !in_region(regions, n - 1) && trim(ls[n - 1]).len() > 0 {
            r.push(n - 1)
        } else {
            r
        }
    }
}

/// Inside a region of `tag` just before line `n` is read.
spec fn inside(regions: Seq<(int, int, Tag)>, n: int, tag: Tag) -> bool {
    exists|k: int|
        0 <= k < regions.len() && (#[trigger] regions[k]).2 == tag && regions[k].0 < n
            <= regions[k].1
}

/// The lines of `ls` at the indices `m`.
pub open spec fn markup_text(ls: Seq<Seq<char>>, m: Seq<int>) -> Seq<Seq<char>> {
    m.map_values(|i: int| ls[i])
}

proof fn lemma_open_not_close(t: Seq<char>, tag: Tag, other: Tag)
    requires
        starts_with(t, close_pat(tag)),
    ensures
        !starts_with(t, open_pat(other)),
{
    assert(t.subrange(0, close_pat(tag).len() as int)[1] == t[1]);
    if starts_with(t, open_pat(other)) {
        assert(t.subrange(0, open_pat(other).len() as int)[1] == t[1]);
    }
}

proof fn lemma_template_scan(ls: Seq<Seq<char>>, regions: Seq<(int, int, Tag)>, n: int)
    requires
        template_well_formed(ls, regions),
        0 <= n <= ls.len(),
    ensures
        template_scan(ls, n as nat).in_block == inside(regions, n, Tag::Script),
        template_scan(ls, n as nat).done == inside(regions, n, Tag::Style),
        template_scan(ls, n as nat).pieces == markup_text(ls, markup_lines(ls, regions, n)),
        markup_lines(ls, regions, n).len() > 0 ==> template_scan(ls, n as nat).start
            == markup_lines(ls, regions, n)[0],
    decreases n,
{
    if n > 0 {
        let i = n - 1;
        lemma_template_scan(ls, regions, i);
        let st = template_scan(ls, i as nat);
        let line = ls[i];
        let t = trim(line);
        assert(template_scan(ls, n as nat) == template_step(st, i as nat, line));
        let m0 = markup_lines(ls, regions, i);
        if in_region(regions, i) {
            let k = choose|k: int| 0 <= k < regions.len() && (#[trigger] regions[k]).0 <= i <= regions[k].1;
            let (o, c, tag) = regions[k];
            assert forall|j: int| 0 <= j < regions.len() && j != k implies !((#[trigger] regions[j]).0 <= i
                <= regions[j].1) && !(regions[j].0 < n <= regions[j].1) by {
                if j < k {
                    assert(regions[j].1 < regions[k].0);
                } else {
                    assert(regions[k].1 < regions[j].0);
                }
            }
            assert(inside(regions, i, Tag::Script) == (tag == Tag::Script && o < i));
            assert(inside(regions, i, Tag::Style) == (tag == Tag::Style && o < i));
            assert(inside(regions, n, Tag::Script) == (tag == Tag::Script && n <= c));
            assert(inside(regions, n, Tag::Style) == (tag == Tag::Style && n <= c));
            assert(markup_lines(ls, regions, n) == m0);
            if i == o {
                lemma_bare_open_line(line, tag);
                assert(contains_char(t, '>'));
                if tag == Tag::Style {
                    assert(t.subrange(0, open_pat(Tag::Style).len() as int)[2] == t[2]);
                    assert(!starts_with(t, open_pat(Tag::Script))) by {
                        if starts_with(t, open_pat(Tag::Script)) {
                            assert(t.subrange(0, open_pat(Tag::Script).len() as int)[2] == t[2]);
                        }
                    }
                }
            } else if i == c {
                lemma_open_not_close(t, tag, Tag::Script);
                lemma_open_not_close(t, tag, Tag::Style);
                assert(closes_block(t, tag));
            } else {
                assert(!(exists|k2: int| 0 <= k2 < regions.len() && #[trigger] regions[k2].0 == i)) by {
                    if exists|k2: int| 0 <= k2 < regions.len() && #[trigger] regions[k2].0 == i {
                        let k2 = choose|k2: int| 0 <= k2 < regions.len() && #[trigger] regions[k2].0 == i;
                        assert(k2 == k);
                    }
                }
                assert(!enters(trim(ls[i]), Tag::Script) && !enters(trim(ls[i]), Tag::Style));
                assert(!closes_block(trim(ls[i]), tag));
            }
        } else {
            assert forall|j: int| 0 <= j < regions.len() implies !((#[trigger] regions[j]).0 < i
                <= regions[j].1) && !(regions[j].0 < n <= regions[j].1) by {
                if regions[j].0 < n <= regions[j].1 {
                    assert(regions[j].0 <= i <= regions[j].1);
                }
            }
            assert(!inside(regions, i, Tag::Script) && !inside(regions, i, Tag::Style));
            assert(!inside(regions, n, Tag::Script) && !inside(regions, n, Tag::Style));
            assert(!(exists|k2: int| 0 <= k2 < regions.len() && #[trigger] regions[k2].0 == i));
            assert(!enters(trim(ls[i]), Tag::Script) && !enters(trim(ls[i]), Tag::Style));
            if t.len() > 0 {
                assert(markup_lines(ls, regions, n) == m0.push(i));
                assert(markup_text(ls, m0.push(i)) =~= markup_text(ls, m0).push(line));
                if m0.len() > 0 {
                    assert(m0.push(i)[0] == m0[0]);
                }
            }
        }
    }
}

/// The template of a well-formed Svelte component is exactly its non-blank lines
/// outside the `<script>` and `<style>` regions, starting at the first of them (none
/// when there is no such line); in particular a markup line after a closed `<style>`
/// region belongs to it.
pub proof fn lemma_svelte_template_well_formed(src: Seq<char>, regions: Seq<(int, int, Tag)>)
    requires
        template_well_formed(lines(src), regions),
    ensures
        ({
            let ls = lines(src);
            let m = markup_lines(ls, regions, ls.len() as int);
            svelte_template_block(src) == if m.len() == 0 {
                None
            } else {
                Some(SpecBlock { content: join_lines(markup_text(ls, m)), start_line: m[0] as nat })
            }
        }),
{
    let ls = lines(src);
    lemma_template_scan(ls, regions, ls.len() as int);
}

/// A Vue `<template>` block opened on line `o` and closed on line `c`, holding the
/// nested `<template>` blocks `inner` (each `(a, b)` opens with a whole opening tag on
/// line `a` and closes on line `b`, which begins with `</template`; they come in order,
/// strictly between `o` and `c`, and do not overlap); no line before `o` opens a
/// block, and every other line between `o` and `c` neither opens nor closes one.
pub open spec fn nested_template_well_formed(
    ls: Seq<Seq<char>>,
    o: int,
    c: int,
    inner: Seq<(int, int)>,
) -> bool {
    &&& 0 <= o < c < ls.len()
    &&& bare_open_line(ls[o], Tag::Template)
    &&& bare_close_line(ls[c], Tag::Template)
    &&& forall|n: int| 0 <= n < o ==> !opens_block(trim(#[trigger] ls[n]), Tag::Template)
    &&& forall|k: int|
        0 <= k < inner.len() ==> {
            &&& o < (#[trigger] inner[k]).0 < inner[k].1 < c
            &&& bare_open_line(ls[inner[k].0], Tag::Template)
            &&& bare_close_line(ls[inner[k].1], Tag::Template)
        }
    &&& forall|i: int, j: int|
        0 <= i < j < inner.len() ==> (#[trigger] inner[i]).1 < (#[trigger] inner[j]).0
    &&& forall|n: int|
        o < n < c && !(exists|k: int|
            0 <= k < inner.len() && (#[trigger] inner[k].0 == n || inner[k].1 == n))
            ==> inner_line(#[trigger] ls[n], Tag::Template)
}

spec fn in_inner(inner: Seq<(int, int)>, n: int) -> bool {
    exists|k: int| 0 <= k < inner.len() && (#[trigger] inner[k]).0 < n <= inner[k].1
}

proof fn lemma_nested_scan(ls: Seq<Seq<char>>, o: int, c: int, inner: Seq<(int, int)>, n: int)
    requires
        nested_template_well_formed(ls, o, c, inner),
        0 <= n <= ls.len(),
    ensures
        n <= o ==> single_scan(ls, n as nat, Tag::Template) == scan_init(),
        o < n <= c ==> single_scan(ls, n as nat, Tag::Template) == (ScanState {
            in_block: true,
            done: false,
            start: (o + 1) as nat,
            pieces: ls.subrange(o + 1, n),
            depth: if in_inner(inner, n) {
                1nat
            } else {
                0nat
            },
            blocks: seq![],
        }),
        c < n ==> single_scan(ls, n as nat, Tag::Template) == (ScanState {
            in_block: true,
            done: true,
            start: (o + 1) as nat,
            pieces: ls.subrange(o + 1, c),
            depth: 0,
            blocks: seq![],
        }),
    decreases n,
{
    if n > 0 {
        lemma_nested_scan(ls, o, c, inner, n - 1);
        let i = n - 1;
        let tag = Tag::Template;
        let st = single_scan(ls, i as nat, tag);
        let line = ls[i];
        let t = trim(line);
        assert(single_scan(ls, n as nat, tag) == single_step(st, i as nat, line, tag));
        if i < o {
            assert(!opens_block(trim(ls[i]), tag));
        } else if i == o {
            lemma_bare_open_line(line, tag);
            assert(ls.subrange(o + 1, n) =~= Seq::<Seq<char>>::empty());
            assert(!in_inner(inner, n)) by {
                if in_inner(inner, n) {
                    let k = choose|k: int| 0 <= k < inner.len() && (#[trigger] inner[k]).0 < n <= inner[k].1;
                }
            }
        } else if i < c {
            assert(ls.subrange(o + 1, n) =~= ls.subrange(o + 1, i).push(line));
            if exists|k: int| 0 <= k < inner.len() && (#[trigger] inner[k].0 == i || inner[k].1 == i) {
                let k = choose|k: int| 0 <= k < inner.len() && (#[trigger] inner[k].0 == i || inner[k].1 == i);
                let (a, b) = inner[k];
                assert forall|j: int| 0 <= j < inner.len() && j != k implies !((#[trigger] inner[j]).0 < i
                    <= inner[j].1) && !(inner[j].0 < n <= inner[j].1) by {
                    if j < k {
                        assert(inner[j].1 < inner[k].0);
                    } else {
                        assert(inner[k].1 < inner[j].0);
                    }
                }
                if i == a {
                    lemma_bare_open_line(line, tag);
                    assert(contains_char(t, '>'));
                    assert(in_inner(inner, n));
                    assert(!in_inner(inner, i));
                } else {
                    assert(i == b);
                    lemma_bare_close_line(line, tag);
                    lemma_open_not_close(t, tag, tag);
                    assert(in_inner(inner, i));
                    assert(!in_inner(inner, n));
                }
            } else {
                assert(inner_line(ls[i], tag));
                assert(in_inner(inner, i) == in_inner(inner, n)) by {
                    if in_inner(inner, i) {
                        let k = choose|k: int| 0 <= k < inner.len() && (#[trigger] inner[k]).0 < i <= inner[k].1;
                        assert(inner[k].1 != i);
                    }
                    if in_inner(inner, n) {
                        let k = choose|k: int| 0 <= k < inner.len() && (#[trigger] inner[k]).0 < n <= inner[k].1;
                        assert(inner[k].0 != i);
                    }
                }
            }
        } else if i == c {
            lemma_bare_close_line(line, tag);
            lemma_open_not_close(t, tag, tag);
            assert(!in_inner(inner, i)) by {
                if in_inner(inner, i) {
                    let k = choose|k: int| 0 <= k < inner.len() && (#[trigger] inner[k]).0 < i <= inner[k].1;
                }
            }
            assert(single_step(st, i as nat, line, tag) =~= single_scan(ls, n as nat, tag));
        }
    }
}

/// A Vue `<template>` block that holds nested `<template>` blocks is kept whole: it runs
/// from the line after its opening tag up to the line before its own closing tag, past
/// every nested closing tag.
pub proof fn lemma_vue_nested_template(src: Seq<char>, o: int, c: int, inner: Seq<(int, int)>)
    requires
        nested_template_well_formed(lines(src), o, c, inner),
        c > o + 1,
    ensures
        vue_block(src, Tag::Template) == Some(block_between(lines(src), o, c)),
{
    let ls = lines(src);
    lemma_nested_scan(ls, o, c, inner, ls.len() as int);
}

} // verus!
