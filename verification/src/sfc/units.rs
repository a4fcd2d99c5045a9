//! Code units, the template unit of a component, and the finishing of script parses.

use vstd::prelude::*;

use crate::sfc::blocks::{block_within, SourceBlock, SpecBlock};
use crate::text::{chars_of, line_ranges, lines, push_range, string_of, trim, trim_range};

verus! {

/// Languages that the component parsers deal with.
#[derive(Clone, Copy, PartialEq, Eq, Debug)]
pub enum Language {
    TypeScript,
    Vue,
    Svelte,
    C,
    Cpp,
}

/// Kinds of code unit.
#[derive(Clone, Copy, PartialEq, Eq, Debug)]
pub enum UnitType {
    Function,
    Method,
    Class,
    Constant,
    RawCode,
}

/// An indexed unit of code (function, class, constant or raw text).
#[derive(Debug)]
pub struct CodeUnit {
    pub name: String,
    pub qualified_name: String,
    pub file: String,
    /// 1-indexed first line.
    pub line: usize,
    /// 1-indexed last line.
    pub end_line: usize,
    pub language: Language,
    pub unit_type: UnitType,
    pub signature: String,
    pub docstring: Option<String>,
    pub parameters: Vec<String>,
    pub return_type: Option<String>,
    pub extends: Option<String>,
    pub parent_class: Option<String>,
    pub calls: Vec<String>,
    pub called_by: Vec<String>,
    pub complexity: usize,
    pub has_loops: bool,
    pub has_branches: bool,
    pub has_error_handling: bool,
    pub variables: Vec<String>,
    pub imports: Vec<String>,
    pub code: String,
}

/// The first non-blank line of `ls`, trimmed (empty when every line is blank).
pub open spec fn first_nonblank(ls: Seq<Seq<char>>) -> Seq<char>
    decreases ls.len(),
{
    if ls.len() == 0 {
        seq![]
    } else if trim(ls[0]).len() > 0 {
        trim(ls[0])
    } else {
        first_nonblank(ls.drop_first())
    }
}

/// Last line of a template unit whose 1-indexed first line is `start + 1`.
pub open spec fn template_end_line(b: SpecBlock) -> int {
    let n = lines(b.content).len();
    b.start_line + 1 + if n > 0 {
        n - 1
    } else {
        0
    }
}

/// `u` is the raw-code unit that indexes the template block `b` of the file `path`.
pub open spec fn is_template_unit(u: CodeUnit, path: Seq<char>, b: SpecBlock, lang: Language) -> bool {
    &&& u.name@ == "template"@
    &&& u.qualified_name@ == path + "::template"@
    &&& u.file@ == path
    &&& u.line == b.start_line + 1
    &&& u.end_line == template_end_line(b)
    &&& u.language == lang
    &&& u.unit_type == UnitType::RawCode
    &&& u.signature@ == first_nonblank(lines(b.content))
    &&& u.docstring is None
    &&& u.parameters@.len() == 0
    &&& u.return_type is None
    &&& u.extends is None
    &&& u.parent_class is None
    &&& u.calls@.len() == 0
    &&& u.called_by@.len() == 0
    &&& u.complexity == 1
    &&& !u.has_loops
    &&& !u.has_branches
    &&& !u.has_error_handling
    &&& u.variables@.len() == 0
    &&& u.imports@.len() == 0
    &&& u.code@ == b.content
}

/// The first non-blank line of `text`, trimmed.
fn first_nonblank_line(text: &Vec<char>) -> (r: Vec<char>)
    ensures
        r@ == first_nonblank(lines(text@)),
{
    let ranges = line_ranges(text);
    let ghost ls = lines(text@);
    let n = ranges.len();
    let mut k: usize = 0;
    assert(ls.subrange(0, n as int) =~= ls);
    while k < n
        invariant
            n == ranges.len() == ls.len(),
            ls == lines(text@),
            k <= n,
            forall|j: int|
                0 <= j < ranges.len() ==> {
                    &&& (#[trigger] ranges@[j]).0 <= ranges@[j].1 <= text.len()
                    &&& text@.subrange(ranges@[j].0 as int, ranges@[j].1 as int) == ls[j]
                },
            first_nonblank(ls.subrange(k as int, n as int)) == first_nonblank(ls),
        decreases n - k,
    {
        let (lo, hi) = ranges[k];
        let (ta, tb) = trim_range(text, lo, hi);
        assert(ls.subrange(k as int, n as int)[0] == ls[k as int]);
        if ta < tb {
            let mut out: Vec<char> = Vec::new();
            push_range(&mut out, text, ta, tb);
            assert(out@ =~= text@.subrange(ta as int, tb as int));
            return out;
        }
        assert(ls.subrange(k as int, n as int).drop_first() =~= ls.subrange(k + 1, n as int));
        k = k + 1;
    }
    assert(ls.subrange(k as int, n as int) =~= Seq::<Seq<char>>::empty());
    Vec::new()
}

/// The raw-code unit for a template block: it spans the block's lines (1-indexed),
/// its signature is the first non-blank line and its code is the block's text.
pub fn create_template_unit(path: &str, template: &SourceBlock, lang: Language) -> (u: CodeUnit)
    requires
        template.start_line + 1 <= usize::MAX,
        template.start_line + lines(template.content@).len() <= usize::MAX,
    ensures
        is_template_unit(u, path@, template@, lang),
{
    broadcast use vstd::string::group_string_axioms;

    let text = chars_of(template.content.as_str());
    let count = line_ranges(&text).len();
    let start_line = template.start_line + 1;
    let end_line = start_line + if count > 0 {
        count - 1
    } else {
        0
    };
    let signature = string_of(&first_nonblank_line(&text));
    let mut qualified_name = path.to_string();
    qualified_name.append("::template");
    CodeUnit {
        name: "template".to_string(),
        qualified_name,
        file: path.to_string(),
        line: start_line,
        end_line,
        language: lang,
        unit_type: UnitType::RawCode,
        signature,
        docstring: None,
        parameters: Vec::new(),
        return_type: None,
        extends: None,
        parent_class: None,
        calls: Vec::new(),
        called_by: Vec::new(),
        complexity: 1,
        has_loops: false,
        has_branches: false,
        has_error_handling: false,
        variables: Vec::new(),
        imports: Vec::new(),
        code: template.content.clone(),
    }
}

/// The template unit of a block that lies within the first `n` lines of its file spans
/// a non-empty range of those lines (1-indexed).
pub proof fn lemma_template_unit_within_file(
    u: CodeUnit,
    path: Seq<char>,
    b: SpecBlock,
    lang: Language,
    n: nat,
)
    requires
        is_template_unit(u, path, b, lang),
        block_within(b, n),
    ensures
        1 <= u.line <= u.end_line <= n,
{
}

/// The outcome of parsing the text of a script block: the units found in it (lines
/// relative to the block) and whether the syntax tree was nested deeper than allowed.
#[derive(Debug)]
pub struct ScriptParse {
    pub units: Vec<CodeUnit>,
    pub depth_limit_hit: bool,
}

/// `u` relabelled with `lang`.
pub open spec fn relabel(u: CodeUnit, lang: Language) -> CodeUnit {
    CodeUnit { language: lang, ..u }
}

/// Marks every unit of `units` with the component's language.
pub fn relabel_units(units: &mut Vec<CodeUnit>, lang: Language)
    ensures
        final(units)@ == old(units)@.map_values(|u: CodeUnit| relabel(u, lang)),
{
    let ghost orig = units@;
    let n = units.len();
    for i in 0..n
        invariant
            n == units.len() == orig.len(),
            forall|j: int| 0 <= j < i ==> units@[j] == relabel(#[trigger] orig[j], lang),
            forall|j: int| i <= j < n ==> units@[j] == orig[j],
    {
        units[i].language = lang;
    }
    assert(units@ =~= orig.map_values(|u: CodeUnit| relabel(u, lang)));
}

/// Finishes the parse of a script block: when the depth limit was hit nothing is kept;
/// otherwise every unit is marked with the component's language.
pub fn finish_script_parse(units: Vec<CodeUnit>, depth_limit_hit: bool, lang: Language) -> (r:
    ScriptParse)
    ensures
        r.depth_limit_hit == depth_limit_hit,
        depth_limit_hit ==> r.units@.len() == 0,
        !depth_limit_hit ==> r.units@ == units@.map_values(|u: CodeUnit| relabel(u, lang)),
{
    if depth_limit_hit {
        return ScriptParse { units: Vec::new(), depth_limit_hit: true };
    }
    let mut units = units;
    relabel_units(&mut units, lang);
    ScriptParse { units, depth_limit_hit: false }
}

/// `u` moved down by `d` lines.
pub open spec fn shift_unit(u: CodeUnit, d: nat) -> CodeUnit {
    CodeUnit { line: (u.line + d) as usize, end_line: (u.end_line + d) as usize, ..u }
}

/// Every unit of `us` can be moved down by `d` lines without overflow.
pub open spec fn shift_fits(us: Seq<CodeUnit>, d: nat) -> bool {
    forall|j: int|
        0 <= j < us.len() ==> #[trigger] us[j].line + d <= usize::MAX && us[j].end_line + d
            <= usize::MAX
}

/// Moves every unit of `units` down by `d` lines, to number them in the whole file.
pub fn shift_units(units: &mut Vec<CodeUnit>, d: usize)
    requires
        shift_fits(old(units)@, d as nat),
    ensures
        final(units)@ == old(units)@.map_values(|u: CodeUnit| shift_unit(u, d as nat)),
{
    let ghost orig = units@;
    let n = units.len();
    for i in 0..n
        invariant
            n == units.len() == orig.len(),
            shift_fits(orig, d as nat),
            forall|j: int| 0 <= j < i ==> units@[j] == shift_unit(#[trigger] orig[j], d as nat),
            forall|j: int| i <= j < n ==> units@[j] == orig[j],
    {
        assert(orig[i as int].line + d <= usize::MAX);
        units[i].line = units[i].line + d;
        units[i].end_line = units[i].end_line + d;
    }
    assert(units@ =~= orig.map_values(|u: CodeUnit| shift_unit(u, d as nat)));
}

} // verus!
