use plaid_kit::sfc::blocks::{first_block, Tag};
use plaid_kit::sfc::svelte::{extract_script_blocks, extract_svelte_units, extract_template_block};
use plaid_kit::sfc::units::{
    create_template_unit, finish_script_parse, shift_units, CodeUnit, Language, ScriptParse,
    UnitType,
};
use plaid_kit::sfc::vue::{self, extract_vue_units};
use plaid_kit::sfc::walk::{collect_unit_requests, NodeRole, SyntaxNode, UnitRequest};

fn unit(name: &str, line: usize, end_line: usize) -> CodeUnit {
    CodeUnit {
        name: name.to_string(),
        qualified_name: format!("file::{}", name),
        file: "file".to_string(),
        line,
        end_line,
        language: Language::TypeScript,
        unit_type: UnitType::Function,
        signature: format!("function {}()", name),
        docstring: None,
        parameters: Vec::new(),
        return_type: None,
        extends: None,
        parent_class: None,
        calls: Vec::new(),
        called_by: Vec::new(),
        complexity: 1,
        has_loops: false,
        has_branches: false,
        has_error_handling: false,
        variables: Vec::new(),
        imports: Vec::new(),
        code: String::new(),
    }
}

const SVELTE: &str = "<script context=\"module\">\n  export const prerender = true;\n</script>\n\n<script lang=\"ts\">\n  let count = 0;\n  function inc() { count += 1; }\n</script>\n\n<button on:click={inc}>{count}</button>\n<style>\n  button { color: red; }\n</style>\n";

const VUE: &str = "<template>\n  <div>{{ msg }}</div>\n</template>\n\n<script setup lang=\"ts\">\nconst msg = 'hi'\nfunction greet() {}\n</script>\n";

#[test]
fn svelte_script_blocks_in_order() {
    let blocks = extract_script_blocks(SVELTE);
    assert_eq!(blocks.len(), 2);
    assert_eq!(blocks[0].content, "  export const prerender = true;");
    assert_eq!(blocks[0].start_line, 1);
    assert_eq!(blocks[1].content, "  let count = 0;\n  function inc() { count += 1; }");
    assert_eq!(blocks[1].start_line, 5);
}

#[test]
fn svelte_template_skips_script_and_style() {
    let t = extract_template_block(SVELTE).unwrap();
    assert_eq!(t.content, "<button on:click={inc}>{count}</button>");
    assert_eq!(t.start_line, 9);
}

#[test]
fn svelte_template_keeps_nonblank_lines_only() {
    let src = "<h1>Title</h1>\n\n<p>text</p>\n<script>\nlet a = 1;\n</script>\n";
    let t = extract_template_block(src).unwrap();
    assert_eq!(t.content, "<h1>Title</h1>\n<p>text</p>");
    assert_eq!(t.start_line, 0);
    assert!(extract_template_block("<script>\nlet a;\n</script>\n").is_none());
}

#[test]
fn svelte_unterminated_script_is_dropped() {
    let blocks = extract_script_blocks("<script>\nlet a = 1;\n");
    assert!(blocks.is_empty());
}

#[test]
fn svelte_inline_script_and_closing_text() {
    let blocks = extract_script_blocks("<script>let a = 1;\nlet b = 2; </script>\n");
    assert_eq!(blocks.len(), 1);
    assert_eq!(blocks[0].content, "let a = 1;\nlet b = 2; ");
    assert_eq!(blocks[0].start_line, 0);
}

#[test]
fn svelte_empty_script_gives_no_block() {
    assert!(extract_script_blocks("<script>\n</script>\n").is_empty());
    let blocks = extract_script_blocks("<script>\n\n</script>\n");
    assert_eq!(blocks.len(), 1);
    assert_eq!(blocks[0].content, "");
    assert_eq!(blocks[0].start_line, 1);
}

#[test]
fn crlf_lines_are_stripped() {
    let blocks = extract_script_blocks("<script>\r\nlet a = 1;\r\n</script>\r\n");
    assert_eq!(blocks.len(), 1);
    assert_eq!(blocks[0].content, "let a = 1;");
}

#[test]
fn vue_script_and_template_blocks() {
    let s = vue::extract_script_block(VUE).unwrap();
    assert_eq!(s.content, "const msg = 'hi'\nfunction greet() {}");
    assert_eq!(s.start_line, 5);
    let t = vue::extract_template_block(VUE).unwrap();
    assert_eq!(t.content, "  <div>{{ msg }}</div>");
    assert_eq!(t.start_line, 1);
}

#[test]
fn vue_unterminated_block_runs_to_end() {
    let s = vue::extract_script_block("<script>\nlet a = 1;\nlet b = 2;").unwrap();
    assert_eq!(s.content, "let a = 1;\nlet b = 2;");
    assert_eq!(s.start_line, 1);
}

#[test]
fn one_line_script_blocks_close_on_their_line() {
    let s = first_block("<script>let x = 1;</script>\n<p>hi</p>\n", Tag::Script).unwrap();
    assert_eq!(s.content, "let x = 1;");
    assert_eq!(s.start_line, 0);
    let blocks = extract_script_blocks("<script>let a = 1;</script>\n<p>x</p>");
    assert_eq!(blocks.len(), 1);
    assert_eq!(blocks[0].content, "let a = 1;");
    assert_eq!(blocks[0].start_line, 0);
    assert!(first_block("<script></script>\nlet y;\n</script>\n", Tag::Script).is_none());
    assert!(extract_script_blocks("<script> </script>\n").is_empty());
}

#[test]
fn svelte_template_after_one_line_script_and_style() {
    let t = extract_template_block("<script>let a = 1;</script>\n<h1>Hi</h1>").unwrap();
    assert_eq!(t.content, "<h1>Hi</h1>");
    assert_eq!(t.start_line, 1);
    let t = extract_template_block("<style>p { color: red; }</style>\n<p>a</p>\n").unwrap();
    assert_eq!(t.content, "<p>a</p>");
    assert_eq!(t.start_line, 1);
}

#[test]
fn vue_nested_template_is_kept_whole() {
    let src = "<template>\n  <div>\n    <template v-if='ok'>\n      <p>Yes</p>\n    </template>\n  </div>\n</template>";
    let t = vue::extract_template_block(src).unwrap();
    assert_eq!(t.content, "  <div>\n    <template v-if='ok'>\n      <p>Yes</p>\n    </template>\n  </div>");
    assert_eq!(t.start_line, 1);
    let units = extract_vue_units("App.vue", src, None);
    assert_eq!(units.len(), 1);
    assert_eq!(units[0].name, "template");
    assert_eq!(units[0].line, 2);
    assert_eq!(units[0].end_line, 6);
    let slot = "<template>\n  <template #a>x</template>\n  <b>y</b>\n</template>\n";
    let t = vue::extract_template_block(slot).unwrap();
    assert_eq!(t.content, "  <template #a>x</template>\n  <b>y</b>");
}

#[test]
fn vue_text_before_closing_tag() {
    let t = vue::extract_template_block("<template>\n  <p>a</p></template>\n").unwrap();
    assert_eq!(t.content, "  <p>a</p>");
    assert_eq!(t.start_line, 1);
    assert!(vue::extract_template_block("<div></div>\n").is_none());
}

#[test]
fn template_unit_fields() {
    let t = vue::extract_template_block(VUE).unwrap();
    let u = create_template_unit("src/App.vue", &t, Language::Vue);
    assert_eq!(u.name, "template");
    assert_eq!(u.qualified_name, "src/App.vue::template");
    assert_eq!(u.file, "src/App.vue");
    assert_eq!(u.line, 2);
    assert_eq!(u.end_line, 2);
    assert_eq!(u.language, Language::Vue);
    assert_eq!(u.unit_type, UnitType::RawCode);
    assert_eq!(u.signature, "<div>{{ msg }}</div>");
    assert_eq!(u.code, "  <div>{{ msg }}</div>");
    assert_eq!(u.complexity, 1);
    assert!(u.docstring.is_none() && u.parameters.is_empty() && !u.has_loops);
}

#[test]
fn template_unit_multi_line_span() {
    let src = "<template>\n\n  <div>\n    x\n  </div>\n</template>\n";
    let t = vue::extract_template_block(src).unwrap();
    let u = create_template_unit("C.vue", &t, Language::Vue);
    assert_eq!(u.line, 2);
    assert_eq!(u.end_line, 5);
    assert_eq!(u.signature, "<div>");
}

#[test]
fn svelte_units_are_placed_in_the_file() {
    let scripts = vec![
        ScriptParse { units: vec![unit("a", 1, 1)], depth_limit_hit: false },
        ScriptParse { units: vec![unit("inc", 2, 2), unit("b", 1, 3)], depth_limit_hit: false },
    ];
    let units = extract_svelte_units("App.svelte", SVELTE, scripts);
    assert_eq!(units.len(), 4);
    assert_eq!((units[0].name.as_str(), units[0].line, units[0].end_line), ("a", 2, 2));
    assert_eq!((units[1].name.as_str(), units[1].line, units[1].end_line), ("inc", 7, 7));
    assert_eq!((units[2].name.as_str(), units[2].line, units[2].end_line), ("b", 6, 8));
    assert_eq!(units[3].name, "template");
    assert_eq!(units[3].qualified_name, "App.svelte::template");
    assert_eq!(units[3].line, 10);
    assert!(units.iter().all(|u| u.language == Language::Svelte));
}

#[test]
fn svelte_depth_limit_discards_everything() {
    let scripts = vec![
        ScriptParse { units: vec![unit("a", 1, 1)], depth_limit_hit: false },
        ScriptParse { units: Vec::new(), depth_limit_hit: true },
    ];
    assert!(extract_svelte_units("App.svelte", SVELTE, scripts).is_empty());
}

#[test]
fn vue_units_are_placed_in_the_file() {
    let script = Some(ScriptParse { units: vec![unit("greet", 2, 2)], depth_limit_hit: false });
    let units = extract_vue_units("App.vue", VUE, script);
    assert_eq!(units.len(), 2);
    assert_eq!(units[0].line, 7);
    assert_eq!(units[0].end_line, 7);
    assert_eq!(units[1].name, "template");
    assert_eq!(units[1].line, 2);
    assert!(units.iter().all(|u| u.language == Language::Vue));
    let hit = Some(ScriptParse { units: Vec::new(), depth_limit_hit: true });
    assert!(extract_vue_units("App.vue", VUE, hit).is_empty());
}

#[test]
fn vue_without_script_has_template_only() {
    let src = "<template>\n  <p>x</p>\n</template>\n";
    let units = extract_vue_units("A.vue", src, None);
    assert_eq!(units.len(), 1);
    assert_eq!(units[0].code, "  <p>x</p>");
    assert!(extract_vue_units("A.vue", "", None).is_empty());
}

#[test]
fn finishing_a_script_parse() {
    let p = finish_script_parse(vec![unit("f", 1, 2)], false, Language::Svelte);
    assert!(!p.depth_limit_hit);
    assert_eq!(p.units.len(), 1);
    assert_eq!(p.units[0].language, Language::Svelte);
    assert_eq!(p.units[0].name, "f");
    let q = finish_script_parse(vec![unit("f", 1, 2)], true, Language::Vue);
    assert!(q.depth_limit_hit && q.units.is_empty());
}

#[test]
fn shifting_units() {
    let mut us = vec![unit("f", 1, 4), unit("g", 5, 5)];
    shift_units(&mut us, 10);
    assert_eq!((us[0].line, us[0].end_line, us[1].line, us[1].end_line), (11, 14, 15, 15));
}

fn node(id: usize, role: NodeRole, name: Option<&str>, children: Vec<SyntaxNode>) -> SyntaxNode {
    SyntaxNode { id, role, name: name.map(|s| s.to_string()), class_body: None, children }
}

fn sample_tree() -> SyntaxNode {
    let mut class = node(3, NodeRole::Class, Some("Foo"), Vec::new());
    class.class_body = Some(vec![
        node(4, NodeRole::Function, None, Vec::new()),
        node(5, NodeRole::Constant, None, Vec::new()),
    ]);
    node(
        0,
        NodeRole::Other,
        None,
        vec![
            node(1, NodeRole::Function, None, vec![node(2, NodeRole::Function, None, Vec::new())]),
            class,
            node(6, NodeRole::Constant, None, vec![node(9, NodeRole::Function, None, Vec::new())]),
            node(7, NodeRole::Other, None, vec![node(8, NodeRole::Constant, None, Vec::new())]),
        ],
    )
}

#[test]
fn walk_requests_units_in_order() {
    let reqs = collect_unit_requests(&sample_tree(), 1024).unwrap();
    assert_eq!(
        reqs,
        vec![
            UnitRequest::Function { node: 1, parent_class: None },
            UnitRequest::Function { node: 2, parent_class: None },
            UnitRequest::Class { node: 3 },
            UnitRequest::Function { node: 4, parent_class: Some("Foo".to_string()) },
            UnitRequest::Constant { node: 6 },
            UnitRequest::Constant { node: 8 },
        ]
    );
}

#[test]
fn walk_depth_limit() {
    assert!(collect_unit_requests(&sample_tree(), 1).is_none());
    assert_eq!(collect_unit_requests(&sample_tree(), 2).unwrap().len(), 6);
    assert!(collect_unit_requests(&node(0, NodeRole::Other, None, Vec::new()), 0).is_some());
}

#[test]
fn walk_unnamed_class_is_searched_like_any_node() {
    let tree = node(
        0,
        NodeRole::Class,
        None,
        vec![node(1, NodeRole::Function, None, Vec::new()), node(2, NodeRole::Constant, None, Vec::new())],
    );
    let reqs = collect_unit_requests(&tree, 10).unwrap();
    assert_eq!(
        reqs,
        vec![UnitRequest::Function { node: 1, parent_class: None }, UnitRequest::Constant { node: 2 }]
    );
}

#[test]
fn walk_deep_nesting_is_refused_without_overflow() {
    let mut tree = node(0, NodeRole::Other, None, Vec::new());
    for i in 1..1100 {
        tree = node(i, NodeRole::Other, None, vec![tree]);
    }
    assert!(collect_unit_requests(&tree, 1024).is_none());
    assert!(collect_unit_requests(&tree, 1200).unwrap().is_empty());
}

#[test]
fn vue_script_with_inner_opening_line_and_trailing_text() {
    let src = "<template>\n<p/>\n</template>\n<script>\nlet a = 1;\n<script lang=\"ts\">\n</script> <!-- end -->\nlet b;\n";
    let s = vue::extract_script_block(src).unwrap();
    assert_eq!(s.content, "let a = 1;\n<script lang=\"ts\">");
    assert_eq!(s.start_line, 4);
}
