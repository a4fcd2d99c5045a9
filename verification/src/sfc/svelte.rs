//! Svelte components: every `<script>` block (`<script>` and `<script context="module">`)
//! holds code, and the template is what lies outside `<script>` and `<style>` tags.

use vstd::prelude::*;

use crate::sfc::blocks::{
    before_range, block_fits, line_enters, one_line_range, block_within, blocks_in_order, blocks_view, close_full, close_pat, inline_range,
    lemma_sub_no_newline, line_closes, line_opens, multi_scan, multi_step, open_pat, patterns,
    svelte_script_blocks, svelte_template_block, template_scan, template_step, Pieces, ScanState,
    SourceBlock, SpecBlock, Tag,
};
use crate::sfc::units::{
    create_template_unit, is_template_unit, relabel, relabel_units, shift_fits, shift_unit,
    shift_units, CodeUnit, Language, ScriptParse,
};
use crate::text::{
    chars_of, contains_char_at, has_no_newline, lemma_join_lines_count, lemma_lines, line_ranges,
    lines, starts_with_at, string_of, trim_range,
};

verus! {

/// The `<script>` blocks of a Svelte component (`<script>` and
/// `<script context="module">`), in order.
pub fn extract_script_blocks(source: &str) -> (r: Vec<SourceBlock>)
    ensures
        blocks_view(r@) == svelte_script_blocks(source@),
        blocks_in_order(blocks_view(r@)),
        forall|k: int|
            0 <= k < r.len() ==> block_fits(#[trigger] r@[k]@) && block_within(
                r@[k]@,
                lines(source@).len(),
            ),
{
    let src = chars_of(source);
    let ranges = line_ranges(&src);
    let pats = patterns(Tag::Script);
    let ghost ls = lines(src@);
    proof {
        lemma_lines(src@);
    }
    let mut blocks: Vec<SourceBlock> = Vec::new();
    let mut in_script = false;
    let mut start: usize = 0;
    let mut pieces = Pieces::new();
    let n = ranges.len();
    assert(blocks_view(blocks@) =~= Seq::<SpecBlock>::empty());
    for k in 0..n
        invariant
            n == ranges.len() == ls.len(),
            ls == lines(src@),
            ls.len() <= src.len(),
            forall|j: int| 0 <= j < ls.len() ==> has_no_newline(#[trigger] ls[j]),
            forall|j: int|
                0 <= j < ranges.len() ==> {
                    &&& (#[trigger] ranges@[j]).0 <= ranges@[j].1 <= src.len()
                    &&& src@.subrange(ranges@[j].0 as int, ranges@[j].1 as int) == ls[j]
                },
            pats.open@ == open_pat(Tag::Script),
            pats.close@ == close_pat(Tag::Script),
            pats.close_full@ == close_full(Tag::Script),
            pieces.wf(),
            multi_scan(ls, k as nat, Tag::Script) == (ScanState {
                in_block: in_script,
                done: false,
                start: start as nat,
                pieces: pieces.items@,
                depth: 0,
                blocks: blocks_view(blocks@),
            }),
            in_script ==> start + pieces.count <= k,
            !in_script ==> pieces.count == 0,
            forall|j: int|
                0 <= j < blocks.len() ==> block_fits(#[trigger] blocks@[j]@) && block_within(
                    blocks@[j]@,
                    k as nat,
                ),
            blocks_in_order(blocks_view(blocks@)),
            in_script ==> forall|j: int|
                0 <= j < blocks.len() ==> (#[trigger] blocks@[j]).start_line + lines(
                    blocks@[j].content@,
                ).len() <= start,
    {
        let (lo, hi) = ranges[k];
        let ghost line = ls[k as int];
        let (ta, tb) = trim_range(&src, lo, hi);
        let ghost st = multi_scan(ls, k as nat, Tag::Script);
        assert(multi_scan(ls, (k + 1) as nat, Tag::Script) == multi_step(st, k as nat, line, Tag::Script));
        if !in_script {
            if line_opens(&src, ta, tb, &pats, Tag::Script) {
                match one_line_range(&src, ta, tb, &pats, Tag::Script) {
                    Some((a, b)) => {
                        let (xa, xb) = trim_range(&src, a, b);
                        if xa < xb {
                            proof {
                                lemma_sub_no_newline(src@, lo as int, hi as int, a as int, b as int);
                            }
                            let mut one = Pieces::new();
                            one.push(&src, a, b);
                            assert(one.items@ =~= seq![src@.subrange(a as int, b as int)]);
                            let block = SourceBlock { content: string_of(&one.text), start_line: k };
                            proof {
                                lemma_join_lines_count(one.items@);
                                assert forall|j: int| 0 <= j < blocks.len() implies (#[trigger] blocks@[j]).start_line
                                    + lines(blocks@[j].content@).len() <= k by {
                                    assert(block_fits(blocks@[j]@));
                                }
                            }
                            blocks.push(block);
                            assert(blocks_view(blocks@) =~= st.blocks.push(block@));
                        }
                    },
                    None => {
                        in_script = true;
                        start = k + 1;
                        pieces = Pieces::new();
                        match inline_range(&src, ta, tb, &pats, Tag::Script) {
                            Some((a, b)) => {
                                proof {
                                    lemma_sub_no_newline(src@, lo as int, hi as int, a as int, b as int);
                                }
                                pieces.push(&src, a, b);
                                start = k;
                                assert(pieces.items@ =~= seq![src@.subrange(a as int, b as int)]);
                            },
                            None => {},
                        }
                        assert forall|j: int| 0 <= j < blocks.len() implies (#[trigger] blocks@[j]).start_line
                            + lines(blocks@[j].content@).len() <= start by {
                            assert(block_fits(blocks@[j]@));
                        }
                    },
                }
            }
        } else {
            if line_closes(&src, ta, tb, &pats, Tag::Script) {
                match before_range(&src, lo, hi, &pats, Tag::Script) {
                    Some((a, b)) => {
                        proof {
                            lemma_sub_no_newline(src@, lo as int, hi as int, a as int, b as int);
                        }
                        pieces.push(&src, a, b);
                    },
                    None => {},
                }
                if pieces.count > 0 {
                    let block = SourceBlock { content: string_of(&pieces.text), start_line: start };
                    proof {
                        lemma_join_lines_count(pieces.items@);
                    }
                    blocks.push(block);
                    assert(blocks_view(blocks@) =~= st.blocks.push(block@));
                }
                in_script = false;
                pieces = Pieces::new();
            } else {
                pieces.push(&src, lo, hi);
            }
        }
        assert(multi_scan(ls, (k + 1) as nat, Tag::Script) =~= (ScanState {
            in_block: in_script,
            done: false,
            start: start as nat,
            pieces: pieces.items@,
            depth: 0,
            blocks: blocks_view(blocks@),
        }));
    }
    blocks
}


/// The template of a Svelte component: the non-blank lines outside `<script>` and
/// `<style>` regions, joined, starting at the first of them.
pub fn extract_template_block(source: &str) -> (r: Option<SourceBlock>)
    ensures
        match r {
            Some(b) => svelte_template_block(source@) == Some(b@) && block_fits(b@) && block_within(
                b@,
                lines(source@).len(),
            ),
            None => svelte_template_block(source@) is None,
        },
{
    let src = chars_of(source);
    let ranges = line_ranges(&src);
    let script = patterns(Tag::Script);
    let style = patterns(Tag::Style);
    let ghost ls = lines(src@);
    proof {
        lemma_lines(src@);
    }
    let mut in_script = false;
    let mut in_style = false;
    let mut start: usize = 0;
    let mut pieces = Pieces::new();
    let n = ranges.len();
    for k in 0..n
        invariant
            n == ranges.len() == ls.len(),
            ls == lines(src@),
            ls.len() <= src.len(),
            forall|j: int| 0 <= j < ls.len() ==> has_no_newline(#[trigger] ls[j]),
            forall|j: int|
                0 <= j < ranges.len() ==> {
                    &&& (#[trigger] ranges@[j]).0 <= ranges@[j].1 <= src.len()
                    &&& src@.subrange(ranges@[j].0 as int, ranges@[j].1 as int) == ls[j]
                },
            script.open@ == open_pat(Tag::Script),
            script.close@ == close_pat(Tag::Script),
            script.close_full@ == close_full(Tag::Script),
            style.open@ == open_pat(Tag::Style),
            style.close@ == close_pat(Tag::Style),
            style.close_full@ == close_full(Tag::Style),
            pieces.wf(),
            template_scan(ls, k as nat) == (ScanState {
                in_block: in_script,
                done: in_style,
                start: start as nat,
                pieces: pieces.items@,
                depth: 0,
                blocks: Seq::<SpecBlock>::empty(),
            }),
            pieces.count > 0 ==> start + pieces.count <= k,
            pieces.count <= k,
    {
        let ghost st = template_scan(ls, k as nat);
        let ghost line = ls[k as int];
        assert(template_scan(ls, (k + 1) as nat) == template_step(st, k as nat, line));
        let (lo, hi) = ranges[k];
        let (ta, tb) = trim_range(&src, lo, hi);
        if line_enters(&src, ta, tb, &script, Tag::Script) {
            in_script = one_line_range(&src, ta, tb, &script, Tag::Script).is_none();
        } else if in_script && line_closes(&src, ta, tb, &script, Tag::Script) {
            in_script = false;
        } else if line_enters(&src, ta, tb, &style, Tag::Style) {
            in_style = one_line_range(&src, ta, tb, &style, Tag::Style).is_none();
        } else if in_style && line_closes(&src, ta, tb, &style, Tag::Style) {
            in_style = false;
        } else if !in_script && !in_style && ta < tb {
            if pieces.count == 0 {
                start = k;
            }
            pieces.push(&src, lo, hi);
        }
    }
    if pieces.count == 0 {
        None
    } else {
        proof {
            lemma_join_lines_count(pieces.items@);
        }
        Some(SourceBlock { content: string_of(&pieces.text), start_line: start })
    }
}


/// Some script parse hit the depth limit.
pub open spec fn any_hit(ps: Seq<ScriptParse>) -> bool {
    exists|k: int| 0 <= k < ps.len() && (#[trigger] ps[k]).depth_limit_hit
}

/// The units of the parses, in order, each marked with the component's language and
/// moved down to the start line of its block.
pub open spec fn placed_units(ps: Seq<ScriptParse>, bs: Seq<SpecBlock>, lang: Language) -> Seq<
    CodeUnit,
>
    decreases ps.len(),
{
    if ps.len() == 0 {
        seq![]
    } else {
        placed_units(ps.drop_last(), bs, lang) + ps.last().units@.map_values(
            |u: CodeUnit| shift_unit(relabel(u, lang), bs[ps.len() - 1].start_line),
        )
    }
}

/// Every placed unit carries the component's language.
pub proof fn lemma_placed_units_language(ps: Seq<ScriptParse>, bs: Seq<SpecBlock>, lang: Language)
    ensures
        forall|k: int|
            0 <= k < placed_units(ps, bs, lang).len() ==> (#[trigger] placed_units(
                ps,
                bs,
                lang,
            )[k]).language == lang,
    decreases ps.len(),
{
    if ps.len() > 0 {
        lemma_placed_units_language(ps.drop_last(), bs, lang);
        let a = placed_units(ps.drop_last(), bs, lang);
        assert forall|k: int| 0 <= k < placed_units(ps, bs, lang).len() implies (#[trigger] placed_units(
            ps,
            bs,
            lang,
        )[k]).language == lang by {
            if k >= a.len() {
                assert(placed_units(ps, bs, lang)[k] == shift_unit(
                    relabel(ps.last().units@[k - a.len()], lang),
                    bs[ps.len() - 1].start_line,
                ));
            } else {
                assert(placed_units(ps, bs, lang)[k] == a[k]);
            }
        }
    }
}

/// The units of every parse can be moved to the start line of their block.
pub open spec fn parses_fit(ps: Seq<ScriptParse>, bs: Seq<SpecBlock>) -> bool {
    forall|k: int| 0 <= k < ps.len() ==> shift_fits(#[trigger] ps[k].units@, bs[k].start_line)
}

/// The units of a component: those of its script parses (numbered in the whole file),
/// then its template unit, if any; nothing at all when a parse hit the depth limit.
pub open spec fn component_units(
    path: Seq<char>,
    ps: Seq<ScriptParse>,
    bs: Seq<SpecBlock>,
    template: Option<SpecBlock>,
    lang: Language,
    r: Seq<CodeUnit>,
) -> bool {
    if any_hit(ps) {
        r.len() == 0
    } else {
        let su = placed_units(ps, bs, lang);
        match template {
            None => r == su,
            Some(b) => {
                &&& r.len() == su.len() + 1
                &&& r.take(su.len() as int) == su
                &&& is_template_unit(r[su.len() as int], path, b, lang)
            },
        }
    }
}

/// What a component's units are: nothing when a script parse hit the depth limit;
/// otherwise the units of its script parses, in block order, each marked with the
/// component's language and moved to its block, then its template unit when it has a
/// template; every unit carries the component's language.
pub proof fn lemma_component_units(
    path: Seq<char>,
    ps: Seq<ScriptParse>,
    bs: Seq<SpecBlock>,
    template: Option<SpecBlock>,
    lang: Language,
    r: Seq<CodeUnit>,
)
    requires
        component_units(path, ps, bs, template, lang, r),
    ensures
        any_hit(ps) ==> r.len() == 0,
        !any_hit(ps) ==> r.len() == placed_units(ps, bs, lang).len() + (if template is Some {
            1int
        } else {
            0int
        }),
        !any_hit(ps) ==> r.take(placed_units(ps, bs, lang).len() as int) == placed_units(
            ps,
            bs,
            lang,
        ),
        forall|k: int| 0 <= k < r.len() ==> (#[trigger] r[k]).language == lang,
{
    lemma_placed_units_language(ps, bs, lang);
    if !any_hit(ps) {
        let su = placed_units(ps, bs, lang);
        if template is None {
            assert(r.take(su.len() as int) =~= su);
        } else {
            assert forall|k: int| 0 <= k < r.len() implies (#[trigger] r[k]).language == lang by {
                if k < su.len() {
                    assert(r.take(su.len() as int)[k] == r[k]);
                }
            }
        }
    }
}

/// Collects the units of a Svelte component. `scripts[k]` is the parse of the text of
/// the `k`-th block that [`extract_script_blocks`] gives for `source`: its units are
/// marked as Svelte code and moved to the block's start line; a parse that hit the
/// depth limit makes the whole result empty. The template, if any, comes last as a
/// raw-code unit.
pub fn extract_svelte_units(path: &str, source: &str, mut scripts: Vec<ScriptParse>) -> (r: Vec<
    CodeUnit,
>)
    requires
        scripts.len() == svelte_script_blocks(source@).len(),
        parses_fit(scripts@, svelte_script_blocks(source@)),
    ensures
        component_units(
            path@,
            scripts@,
            svelte_script_blocks(source@),
            svelte_template_block(source@),
            Language::Svelte,
            r@,
        ),
        forall|k: int| 0 <= k < r@.len() ==> (#[trigger] r@[k]).language == Language::Svelte,
{
    let blocks = extract_script_blocks(source);
    let ghost bs = svelte_script_blocks(source@);
    let ghost ps = scripts@;
    let mut units: Vec<CodeUnit> = Vec::new();
    let n = scripts.len();
    assert(ps.take(0) =~= Seq::<ScriptParse>::empty());
    #[verifier::loop_isolation(false)]
    for i in 0..n
        invariant
            n == scripts.len() == ps.len() == bs.len() == blocks.len(),
            blocks_view(blocks@) == bs,
            parses_fit(ps, bs),
            forall|j: int| i <= j < n ==> #[trigger] scripts@[j] == ps[j],
            !any_hit(ps.take(i as int)),
            units@ == placed_units(ps.take(i as int), bs, Language::Svelte),
    {
        assert(ps.take(i + 1).drop_last() =~= ps.take(i as int));
        if scripts[i].depth_limit_hit {
            assert(scripts@[i as int] == ps[i as int]);
            assert(ps[i as int].depth_limit_hit);
            assert(any_hit(ps));
            return Vec::new();
        }
        let mut moved: Vec<CodeUnit> = Vec::new();
        std::mem::swap(&mut moved, &mut scripts[i].units);
        assert(blocks@[i as int]@ == bs[i as int]);
        assert(shift_fits(ps[i as int].units@, bs[i as int].start_line));
        relabel_units(&mut moved, Language::Svelte);
        assert(shift_fits(moved@, bs[i as int].start_line)) by {
            assert forall|j: int| 0 <= j < moved@.len() implies #[trigger] moved@[j].line
                + bs[i as int].start_line <= usize::MAX && moved@[j].end_line
                + bs[i as int].start_line <= usize::MAX by {
                assert(moved@[j] == relabel(ps[i as int].units@[j], Language::Svelte));
                assert(shift_fits(ps[i as int].units@, bs[i as int].start_line));
                assert(ps[i as int].units@[j].line + bs[i as int].start_line <= usize::MAX);
            }
        }
        shift_units(&mut moved, blocks[i].start_line);
        units.append(&mut moved);
        assert(!any_hit(ps.take(i + 1))) by {
            if any_hit(ps.take(i + 1)) {
                let k = choose|k: int| 0 <= k < i + 1 && (#[trigger] ps.take(i + 1)[k]).depth_limit_hit;
                if k < i {
                    assert(ps.take(i as int)[k] == ps.take(i + 1)[k]);
                }
            }
        }
        assert(units@ =~= placed_units(ps.take(i + 1), bs, Language::Svelte));
    }
    assert(ps.take(n as int) =~= ps);
    proof {
        lemma_placed_units_language(ps, bs, Language::Svelte);
    }
    match extract_template_block(source) {
        Some(template) => {
            let unit = create_template_unit(path, &template, Language::Svelte);
            let ghost su = units@;
            units.push(unit);
            assert(units@.take(su.len() as int) =~= su);
        },
        None => {},
    }
    units
}

} // verus!
