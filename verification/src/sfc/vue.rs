//! Vue single-file components: the first `<script>` block (`<script>`, `<script setup>`,
//! `<script lang="ts">`, ...) holds code, and the first `<template>` block is indexed as
//! raw code.

use vstd::prelude::*;

use crate::sfc::blocks::{block_fits, block_within, first_block, vue_block, SourceBlock, SpecBlock, Tag};
use crate::sfc::svelte::{
    any_hit, component_units, lemma_placed_units_language, parses_fit, placed_units,
};
use crate::text::lines;
use crate::sfc::units::{
    create_template_unit, relabel, relabel_units, shift_fits, shift_units, CodeUnit, Language,
    ScriptParse,
};

verus! {

/// The first `<script>` block of a Vue component.
pub fn extract_script_block(source: &str) -> (r: Option<SourceBlock>)
    ensures
        match r {
            Some(b) => vue_block(source@, Tag::Script) == Some(b@) && block_fits(b@) && block_within(
                b@,
                lines(source@).len(),
            ),
            None => vue_block(source@, Tag::Script) is None,
        },
{
    first_block(source, Tag::Script)
}

/// The first `<template>` block of a Vue component.
pub fn extract_template_block(source: &str) -> (r: Option<SourceBlock>)
    ensures
        match r {
            Some(b) => vue_block(source@, Tag::Template) == Some(b@) && block_fits(b@)
                && block_within(b@, lines(source@).len()),
            None => vue_block(source@, Tag::Template) is None,
        },
{
    first_block(source, Tag::Template)
}

pub open spec fn opt_seq<T>(o: Option<T>) -> Seq<T> {
    match o {
        Some(x) => seq![x],
        None => seq![],
    }
}

/// Collects the units of a Vue component. `script` is the parse of the text of the
/// block that [`extract_script_block`] gives for `source` (present exactly when that
/// block is): its units are marked as Vue code and moved to the block's start line,
/// and a parse that hit the depth limit makes the whole result empty. The template, if
/// any, comes last as a raw-code unit.
pub fn extract_vue_units(path: &str, source: &str, script: Option<ScriptParse>) -> (r: Vec<
    CodeUnit,
>)
    requires
        script is Some <==> vue_block(source@, Tag::Script) is Some,
        parses_fit(opt_seq(script), opt_seq(vue_block(source@, Tag::Script))),
    ensures
        component_units(
            path@,
            opt_seq(script),
            opt_seq(vue_block(source@, Tag::Script)),
            vue_block(source@, Tag::Template),
            Language::Vue,
            r@,
        ),
        forall|k: int| 0 <= k < r@.len() ==> (#[trigger] r@[k]).language == Language::Vue,
{
    let ghost ps = opt_seq(script);
    let ghost bs = opt_seq(vue_block(source@, Tag::Script));
    let mut units: Vec<CodeUnit> = Vec::new();
    let block = extract_script_block(source);
    match script {
        Some(parse) => {
            let b = block.unwrap();
            if parse.depth_limit_hit {
                assert(ps[0].depth_limit_hit);
                return Vec::new();
            }
            assert(!any_hit(ps));
            assert(ps[0] == parse);
            let mut moved = parse.units;
            relabel_units(&mut moved, Language::Vue);
            assert(bs[0] == b@);
            assert(shift_fits(moved@, b@.start_line)) by {
                assert forall|j: int| 0 <= j < moved@.len() implies #[trigger] moved@[j].line
                    + b@.start_line <= usize::MAX && moved@[j].end_line + b@.start_line
                    <= usize::MAX by {
                    assert(moved@[j] == relabel(ps[0].units@[j], Language::Vue));
                    assert(shift_fits(ps[0].units@, bs[0].start_line));
                    assert(ps[0].units@[j].line + bs[0].start_line <= usize::MAX);
                }
            }
            shift_units(&mut moved, b.start_line);
            units = moved;
            assert(ps.drop_last() =~= Seq::<ScriptParse>::empty());
            assert(placed_units(ps.drop_last(), bs, Language::Vue) =~= Seq::<CodeUnit>::empty());
            assert(units@ =~= placed_units(ps, bs, Language::Vue));
        },
        None => {
            assert(units@ =~= placed_units(ps, bs, Language::Vue));
        },
    }
    proof {
        lemma_placed_units_language(ps, bs, Language::Vue);
    }
    match extract_template_block(source) {
        Some(template) => {
            let unit = create_template_unit(path, &template, Language::Vue);
            let ghost su = units@;
            units.push(unit);
            assert(units@.take(su.len() as int) =~= su);
        },
        None => {},
    }
    units
}

} // verus!
