//! Tests on Ruby sources parsed into the library's syntax tree.

use rubyfast::ast::{CallNode, DefNode, ForNode, Loc, ParametersNode, RescueNode, SyntaxNode};
use rubyfast::prism_tree::parse_tree;
use rubyfast::ast_helpers::{
    arg_count, block_arg_names, body_expression_count, body_single_expression, byte_offset_to_line,
    call_args_pair, compute_newline_positions, def_block_arg_name, def_first_arg_name,
    def_regular_arg_count, first_arg_is_single_pair_hash, first_call_arg, has_block_pass,
    has_full_block, is_int_one, is_primitive, is_single_char_string, receiver_as_call,
    receiver_is_call_with_name, receiver_is_range, str_contains_def,
};
use rubyfast::ast_visitor::{for_each_descendant, for_each_direct_child};
use rubyfast::comment_directives::{disabled_set_of_source, is_trailing_comment, DisabledSet};
use rubyfast::fix::apply_fixes;
use rubyfast::offense::{Offense, OffenseKind};
use rubyfast::scanner::for_loop_scanner::{self, extract_trimmed};
use rubyfast::scanner::method_call_scanner::{scan_call, scan_call_on_block_call, scan_call_with_block};
use rubyfast::scanner::{method_definition_scanner, rescue_scanner};

fn parse_first_stmt(source: &[u8]) -> SyntaxNode {
    match parse_tree(source) {
        SyntaxNode::Program { mut statements } => statements.remove(0),
        _ => panic!("expected a program"),
    }
}

fn as_call_node(n: &SyntaxNode) -> &CallNode {
    match n {
        SyntaxNode::Call(c) => c,
        _ => panic!("expected a call"),
    }
}

fn as_def_node(n: &SyntaxNode) -> &DefNode {
    match n {
        SyntaxNode::Def(d) => d,
        _ => panic!("expected a method definition"),
    }
}

fn parse_and_build(source: &str) -> DisabledSet {
    disabled_set_of_source(source.as_bytes()).unwrap()
}

/// Walk a tree the way the analyzer does for calls, collecting call offenses.
fn walk_for_offenses(node: &SyntaxNode, offenses: &mut Vec<Offense>) {
    match node {
        SyntaxNode::Call(call) => {
            if let Some(recv) = &call.receiver {
                if let SyntaxNode::Call(recv_call) = &**recv {
                    if let Some(SyntaxNode::Block(_)) = recv_call.block.as_deref() {
                        offenses.extend(scan_call_on_block_call(call, recv_call));
                    }
                }
            }
            match call.block.as_deref() {
                Some(SyntaxNode::Block(block)) => {
                    offenses.extend(scan_call_with_block(call, block));
                    if let Some(recv) = &call.receiver {
                        walk_for_offenses(recv, offenses);
                    }
                    for arg in &call.arguments {
                        walk_for_offenses(arg, offenses);
                    }
                    if let Some(body) = &block.body {
                        walk_for_offenses(body, offenses);
                    }
                }
                _ => {
                    offenses.extend(scan_call(call));
                    for child in for_each_direct_child(node) {
                        walk_for_offenses(child, offenses);
                    }
                }
            }
        }
        _ => {
            for child in for_each_direct_child(node) {
                walk_for_offenses(child, offenses);
            }
        }
    }
}

fn parse_and_collect(source: &[u8]) -> Vec<Offense> {
    let root = parse_tree(source);
    let mut offenses = Vec::new();
    walk_for_offenses(&root, &mut offenses);
    offenses
}

fn collect_def_offenses(node: &SyntaxNode, offenses: &mut Vec<Offense>) {
    if let SyntaxNode::Def(d) = node {
        offenses.extend(method_definition_scanner::scan(d));
    }
    for child in for_each_direct_child(node) {
        collect_def_offenses(child, offenses);
    }
}

fn parse_and_scan(source: &[u8]) -> Vec<Offense> {
    let root = parse_tree(source);
    let mut offenses = Vec::new();
    collect_def_offenses(&root, &mut offenses);
    offenses
}

fn collect_from_rescue_chain(rescue: &RescueNode, offenses: &mut Vec<Offense>) {
    offenses.extend(rescue_scanner::scan(rescue));
    if let Some(subsequent) = &rescue.subsequent {
        collect_from_rescue_chain(subsequent, offenses);
    }
}

fn collect_rescue_offenses(node: &SyntaxNode, offenses: &mut Vec<Offense>) {
    if let SyntaxNode::Begin(begin) = node {
        if let Some(rescue) = &begin.rescue_clause {
            collect_from_rescue_chain(rescue, offenses);
        }
    }
    for child in for_each_direct_child(node) {
        collect_rescue_offenses(child, offenses);
    }
}

fn parse_and_find_rescue_bodies(source: &[u8]) -> Vec<Offense> {
    let root = parse_tree(source);
    let mut offenses = Vec::new();
    collect_rescue_offenses(&root, &mut offenses);
    offenses
}

fn parse_first_for(source: &[u8]) -> ForNode {
    match parse_first_stmt(source) {
        SyntaxNode::For(f) => f,
        _ => panic!("expected a for loop"),
    }
}

fn count_all_nodes(node: &SyntaxNode) -> usize {
    1 + for_each_descendant(node).len()
}

#[test]
fn byte_offset_to_line_basic() {
    let positions = vec![5, 11];
    assert_eq!(byte_offset_to_line(&positions, 0), 1);
    assert_eq!(byte_offset_to_line(&positions, 5), 1); // exact match
    assert_eq!(byte_offset_to_line(&positions, 6), 2);
    assert_eq!(byte_offset_to_line(&positions, 12), 3);
}

#[test]
fn byte_offset_to_line_empty() {
    assert_eq!(byte_offset_to_line(&[], 0), 1);
    assert_eq!(byte_offset_to_line(&[], 100), 1);
}

#[test]
fn receiver_is_call_with_name_works() {
    let node = parse_first_stmt(b"a.foo.bar");
    let call = as_call_node(&node);
    assert!(receiver_is_call_with_name(&call.receiver, b"foo"));
    assert!(!receiver_is_call_with_name(&call.receiver, b"baz"));
}

#[test]
fn receiver_is_call_with_name_none() {
    assert!(!receiver_is_call_with_name(&None, b"foo"));
}

#[test]
fn receiver_as_call_works() {
    let node = parse_first_stmt(b"a.foo.bar");
    let call = as_call_node(&node);
    let recv = &call.receiver;
    let inner = receiver_as_call(recv).unwrap();
    assert_eq!(inner.name.as_slice(), b"foo");
}

#[test]
fn receiver_as_call_not_call() {
    assert!(receiver_as_call(&None).is_none());
}

#[test]
fn has_block_pass_works() {
    let node = parse_first_stmt(b"arr.map(&:to_s)");
    let call = as_call_node(&node);
    assert!(has_block_pass(&call));
}

#[test]
fn has_block_pass_without() {
    let node = parse_first_stmt(b"arr.map(1)");
    let call = as_call_node(&node);
    assert!(!has_block_pass(&call));
}

#[test]
fn arg_count_works() {
    let node = parse_first_stmt(b"arr.select(1, 2)");
    let call = as_call_node(&node);
    assert_eq!(arg_count(&call), 2);
}

#[test]
fn is_single_char_string_works() {
    let node = parse_first_stmt(b"'x'");
    assert!(is_single_char_string(&node));
    let node2 = parse_first_stmt(b"'xy'");
    assert!(!is_single_char_string(&node2));
}

#[test]
fn is_single_char_string_not_string() {
    let node = parse_first_stmt(b"42");
    assert!(!is_single_char_string(&node));
}

#[test]
fn receiver_is_range_inclusive() {
    let node = parse_first_stmt(b"(1..10).include?(5)");
    let call = as_call_node(&node);
    assert!(receiver_is_range(&call.receiver));
}

#[test]
fn receiver_is_range_exclusive() {
    let node = parse_first_stmt(b"(1...10).include?(5)");
    let call = as_call_node(&node);
    assert!(receiver_is_range(&call.receiver));
}

#[test]
fn receiver_is_range_not_range() {
    let node = parse_first_stmt(b"[1].include?(5)");
    let call = as_call_node(&node);
    assert!(!receiver_is_range(&call.receiver));
}

#[test]
fn is_primitive_covers_types() {
    assert!(is_primitive(&parse_first_stmt(b"42")));
    assert!(is_primitive(&parse_first_stmt(b"3.14")));
    assert!(is_primitive(&parse_first_stmt(b"'s'")));
    assert!(is_primitive(&parse_first_stmt(b":sym")));
    assert!(is_primitive(&parse_first_stmt(b"true")));
    assert!(is_primitive(&parse_first_stmt(b"false")));
    assert!(is_primitive(&parse_first_stmt(b"nil")));
    assert!(is_primitive(&parse_first_stmt(b"[]")));
    assert!(is_primitive(&parse_first_stmt(b"{}")));
    assert!(is_primitive(&parse_first_stmt(b"1..5")));
    assert!(is_primitive(&parse_first_stmt(b"1...5")));
    assert!(!is_primitive(&parse_first_stmt(b"x")));
}

#[test]
fn first_arg_is_single_pair_hash_kwargs() {
    let node = parse_first_stmt(b"h.merge!(a: 1)");
    let call = as_call_node(&node);
    assert!(first_arg_is_single_pair_hash(&call));
}

#[test]
fn first_arg_is_single_pair_hash_explicit() {
    let node = parse_first_stmt(b"h.merge!({a: 1})");
    let call = as_call_node(&node);
    assert!(first_arg_is_single_pair_hash(&call));
}

#[test]
fn first_arg_is_single_pair_hash_multi() {
    let node = parse_first_stmt(b"h.merge!(a: 1, b: 2)");
    let call = as_call_node(&node);
    assert!(!first_arg_is_single_pair_hash(&call));
}

#[test]
fn first_arg_is_single_pair_hash_not_hash() {
    let node = parse_first_stmt(b"h.merge!(x)");
    let call = as_call_node(&node);
    assert!(!first_arg_is_single_pair_hash(&call));
}

#[test]
fn is_int_one_works() {
    assert!(is_int_one(&parse_first_stmt(b"1")));
    assert!(!is_int_one(&parse_first_stmt(b"2")));
    assert!(!is_int_one(&parse_first_stmt(b"'1'")));
}

#[test]
fn block_arg_names_single() {
    let node = parse_first_stmt(b"arr.map { |x| x }");
    let call = as_call_node(&node);
    if let Some(SyntaxNode::Block(block)) = call.block.as_deref() {
        let names = block_arg_names(&block.parameters);
        assert_eq!(names, vec!["x".to_string()]);
    } else {
        panic!("Expected BlockNode");
    }
}

#[test]
fn block_arg_names_none() {
    let names = block_arg_names(&None);
    assert!(names.is_empty());
}

#[test]
fn def_block_arg_name_present() {
    let node = parse_first_stmt(b"def foo(&block); end");
    let def = as_def_node(&node);
    assert_eq!(def_block_arg_name(&def), Some("block".to_string()));
}

#[test]
fn def_block_arg_name_absent() {
    let node = parse_first_stmt(b"def foo(x); end");
    let def = as_def_node(&node);
    assert_eq!(def_block_arg_name(&def), None);
}

#[test]
fn def_regular_arg_count_works() {
    let node = parse_first_stmt(b"def foo(a, b); end");
    let def = as_def_node(&node);
    assert_eq!(def_regular_arg_count(&def), 2);
}

#[test]
fn def_regular_arg_count_no_args() {
    let node = parse_first_stmt(b"def foo; end");
    let def = as_def_node(&node);
    assert_eq!(def_regular_arg_count(&def), 0);
}

#[test]
fn def_first_arg_name_works() {
    let node = parse_first_stmt(b"def foo(bar); end");
    let def = as_def_node(&node);
    assert_eq!(def_first_arg_name(&def), Some("bar".to_string()));
}

#[test]
fn def_first_arg_name_no_args() {
    let node = parse_first_stmt(b"def foo; end");
    let def = as_def_node(&node);
    assert_eq!(def_first_arg_name(&def), None);
}

#[test]
fn str_contains_def_in_string() {
    let node = parse_first_stmt(b"\"def foo\"");
    assert!(str_contains_def(&node));
}

#[test]
fn str_contains_def_no_def() {
    let node = parse_first_stmt(b"\"hello\"");
    assert!(!str_contains_def(&node));
}

#[test]
fn str_contains_def_not_string() {
    let node = parse_first_stmt(b"42");
    assert!(!str_contains_def(&node));
}

#[test]
fn str_contains_def_heredoc() {
    let node = parse_first_stmt(b"<<~RUBY\ndef foo\nRUBY\n");
    assert!(str_contains_def(&node));
}

#[test]
fn body_expression_count_none() {
    assert_eq!(body_expression_count(&None), 0);
}

#[test]
fn body_expression_count_single() {
    let node = parse_first_stmt(b"def foo; 42; end");
    let def = as_def_node(&node);
    assert_eq!(body_expression_count(&def.body), 1);
}

#[test]
fn body_expression_count_multiple() {
    let node = parse_first_stmt(b"def foo; 1; 2; 3; end");
    let def = as_def_node(&node);
    assert_eq!(body_expression_count(&def.body), 3);
}

#[test]
fn body_single_expression_works() {
    let node = parse_first_stmt(b"def foo; 42; end");
    let def = as_def_node(&node);
    let single = body_single_expression(def.body.as_deref());
    assert!(single.is_some());
    assert!(matches!(single.unwrap(), SyntaxNode::Integer { .. }));
}

#[test]
fn body_single_expression_none_for_multiple() {
    let node = parse_first_stmt(b"def foo; 1; 2; end");
    let def = as_def_node(&node);
    assert!(body_single_expression(def.body.as_deref()).is_none());
}

#[test]
fn body_single_expression_none_for_empty() {
    assert!(body_single_expression(None).is_none());
}

#[test]
fn has_full_block_works() {
    let node = parse_first_stmt(b"arr.map { |x| x }");
    let call = as_call_node(&node);
    assert!(has_full_block(&call));
}

#[test]
fn has_full_block_without() {
    let node = parse_first_stmt(b"arr.map(&:to_s)");
    let call = as_call_node(&node);
    assert!(!has_full_block(&call));
}

#[test]
fn first_call_arg_some() {
    let node = parse_first_stmt(b"foo(42)");
    let call = as_call_node(&node);
    let arg = first_call_arg(&call);
    assert!(arg.is_some());
}

#[test]
fn first_call_arg_none() {
    let node = parse_first_stmt(b"foo()");
    let call = as_call_node(&node);
    let arg = first_call_arg(&call);
    assert!(arg.is_none());
}

#[test]
fn call_args_pair_exactly_two() {
    let node = parse_first_stmt(b"foo(1, 2)");
    let call = as_call_node(&node);
    let pair = call_args_pair(&call);
    assert!(pair.is_some());
}

#[test]
fn call_args_pair_one_arg() {
    let node = parse_first_stmt(b"foo(1)");
    let call = as_call_node(&node);
    assert!(call_args_pair(&call).is_none());
}

#[test]
fn call_args_pair_three_args() {
    let node = parse_first_stmt(b"foo(1, 2, 3)");
    let call = as_call_node(&node);
    assert!(call_args_pair(&call).is_none());
}

#[test]
fn call_args_pair_no_args() {
    let node = parse_first_stmt(b"foo()");
    let call = as_call_node(&node);
    assert!(call_args_pair(&call).is_none());
}

#[test]
fn receiver_is_range_none() {
    assert!(!receiver_is_range(&None));
}

#[test]
fn is_primitive_rational() {
    assert!(is_primitive(&parse_first_stmt(b"3r")));
}

#[test]
fn is_primitive_imaginary() {
    assert!(is_primitive(&parse_first_stmt(b"1i")));
}

#[test]
fn first_arg_is_single_pair_hash_no_arg() {
    let node = parse_first_stmt(b"h.merge!()");
    let call = as_call_node(&node);
    assert!(!first_arg_is_single_pair_hash(&call));
}

#[test]
fn is_int_one_hex() {
    assert!(is_int_one(&parse_first_stmt(b"0x1")));
}

#[test]
fn is_int_one_binary() {
    assert!(is_int_one(&parse_first_stmt(b"0b1")));
}

#[test]
fn is_int_one_octal() {
    assert!(is_int_one(&parse_first_stmt(b"0o1")));
}

#[test]
fn block_arg_names_multiple() {
    let node = parse_first_stmt(b"arr.each_with_object([]) { |x, acc| x }");
    let call = as_call_node(&node);
    if let Some(SyntaxNode::Block(block)) = call.block.as_deref() {
        let names = block_arg_names(&block.parameters);
        assert_eq!(names.len(), 2);
    }
}

#[test]
fn block_arg_names_numbered_params() {
    // Numbered parameters (_1) produce NumberedParametersNode, not BlockParametersNode
    let node = parse_first_stmt(b"arr.map { _1.to_s }");
    let call = as_call_node(&node);
    if let Some(SyntaxNode::Block(block)) = call.block.as_deref() {
        let names = block_arg_names(&block.parameters);
        assert!(names.is_empty());
    }
}

#[test]
fn str_contains_def_in_interpolated_string() {
    let node = parse_first_stmt(b"\"prefix def foo #{x} end\"");
    assert!(str_contains_def(&node));
}

#[test]
fn str_contains_def_interpolated_no_def() {
    let node = parse_first_stmt(b"\"prefix #{x} suffix\"");
    assert!(!str_contains_def(&node));
}

#[test]
fn arg_count_no_args() {
    let node = parse_first_stmt(b"arr.map");
    let call = as_call_node(&node);
    assert_eq!(arg_count(&call), 0);
}

#[test]
fn receiver_as_call_non_call_recv() {
    let node = parse_first_stmt(b"42.to_s");
    let call = as_call_node(&node);
    let recv = &call.receiver;
    assert!(receiver_as_call(recv).is_none());
}

#[test]
fn body_expression_count_endless_method() {
    // Endless method: `def foo = 42` — body is a single IntegerNode, not StatementsNode
    let node = parse_first_stmt(b"def foo = 42");
    let def = as_def_node(&node);
    assert_eq!(body_expression_count(&def.body), 1);
}

#[test]
fn body_single_expression_endless_method() {
    // Endless method body is not a StatementsNode
    let node = parse_first_stmt(b"def foo = 42");
    let def = as_def_node(&node);
    let single = body_single_expression(def.body.as_deref());
    assert!(single.is_some());
    assert!(matches!(single.unwrap(), SyntaxNode::Integer { .. }));
}

#[test]
fn compute_newline_positions_works() {
    let source = b"line1\nline2\nline3";
    let positions = compute_newline_positions(source);
    assert_eq!(positions, vec![5, 11]);
}

#[test]
fn compute_newline_positions_empty() {
    assert!(compute_newline_positions(b"").is_empty());
}

#[test]
fn compute_newline_positions_no_newlines() {
    assert!(compute_newline_positions(b"hello").is_empty());
}

#[test]
fn prism_handles_ascii_encoding() {
    let source = b"# encoding: ASCII\nx = 1\n";
    let result = ruby_prism::parse(source);
    assert!(result.errors().next().is_none());
}

#[test]
fn prism_handles_us_ascii_encoding() {
    let source = b"# encoding: us-ascii\nx = 1\n";
    let result = ruby_prism::parse(source);
    assert!(result.errors().next().is_none());
}

#[test]
fn trailing_disable_same_line() {
    let source = "x = [].shuffle.first # rubyfast:disable shuffle_first_vs_sample\ny = 1\n";
    let set = parse_and_build(source);
    assert!(set.is_disabled(1, OffenseKind::ShuffleFirstVsSample));
    assert!(!set.is_disabled(2, OffenseKind::ShuffleFirstVsSample));
}

#[test]
fn disable_next_line() {
    let source = "# rubyfast:disable-next-line shuffle_first_vs_sample\nx = [].shuffle.first\ny = [].shuffle.first\n";
    let set = parse_and_build(source);
    assert!(set.is_disabled(2, OffenseKind::ShuffleFirstVsSample));
    assert!(!set.is_disabled(3, OffenseKind::ShuffleFirstVsSample));
}

#[test]
fn block_disable_enable() {
    let source = "x = 1\n# rubyfast:disable for_loop_vs_each\nfor i in [1]; end\n# rubyfast:enable for_loop_vs_each\nfor j in [2]; end\n";
    let set = parse_and_build(source);
    assert!(set.is_disabled(3, OffenseKind::ForLoopVsEach));
    assert!(!set.is_disabled(5, OffenseKind::ForLoopVsEach));
}

#[test]
fn disable_all() {
    let source = "x = 1 # rubyfast:disable all\n";
    let set = parse_and_build(source);
    assert!(set.is_disabled(1, OffenseKind::ShuffleFirstVsSample));
    assert!(set.is_disabled(1, OffenseKind::ForLoopVsEach));
}

#[test]
fn multiple_rules() {
    let source = "x = 1 # rubyfast:disable shuffle_first_vs_sample, for_loop_vs_each\n";
    let set = parse_and_build(source);
    assert!(set.is_disabled(1, OffenseKind::ShuffleFirstVsSample));
    assert!(set.is_disabled(1, OffenseKind::ForLoopVsEach));
    assert!(!set.is_disabled(1, OffenseKind::GsubVsTr));
}

#[test]
fn fasterer_compat() {
    let source = "x = 1 # fasterer:disable shuffle_first_vs_sample\n";
    let set = parse_and_build(source);
    assert!(set.is_disabled(1, OffenseKind::ShuffleFirstVsSample));
}

#[test]
fn unclosed_block_disable_extends_to_eof() {
    let source = "# rubyfast:disable for_loop_vs_each\nfor i in [1]; end\nfor j in [2]; end\n";
    let set = parse_and_build(source);
    assert!(set.is_disabled(2, OffenseKind::ForLoopVsEach));
    assert!(set.is_disabled(3, OffenseKind::ForLoopVsEach));
}

#[test]
fn unknown_rule_ignored() {
    let source = "x = 1 # rubyfast:disable nonexistent_rule\n";
    let set = parse_and_build(source);
    assert!(!set.is_disabled(1, OffenseKind::ShuffleFirstVsSample));
}

#[test]
fn disable_next_line_all() {
    let source = "# rubyfast:disable-next-line all\nx = [].shuffle.first\ny = 1\n";
    let set = parse_and_build(source);
    assert!(set.is_disabled(2, OffenseKind::ShuffleFirstVsSample));
    assert!(set.is_disabled(2, OffenseKind::ForLoopVsEach));
    assert!(!set.is_disabled(3, OffenseKind::ShuffleFirstVsSample));
}

#[test]
fn block_disable_all_and_enable_all() {
    let source = "# rubyfast:disable all\nx = 1\ny = 2\n# rubyfast:enable all\nz = 3\n";
    let set = parse_and_build(source);
    assert!(set.is_disabled(2, OffenseKind::ShuffleFirstVsSample));
    assert!(set.is_disabled(3, OffenseKind::ForLoopVsEach));
    assert!(!set.is_disabled(5, OffenseKind::ShuffleFirstVsSample));
}

#[test]
fn multiple_rules_in_block_disable() {
    let source = "# rubyfast:disable shuffle_first_vs_sample, for_loop_vs_each\nx = 1\n# rubyfast:enable shuffle_first_vs_sample, for_loop_vs_each\ny = 2\n";
    let set = parse_and_build(source);
    assert!(set.is_disabled(2, OffenseKind::ShuffleFirstVsSample));
    assert!(set.is_disabled(2, OffenseKind::ForLoopVsEach));
    assert!(!set.is_disabled(4, OffenseKind::ShuffleFirstVsSample));
    assert!(!set.is_disabled(4, OffenseKind::ForLoopVsEach));
}

#[test]
fn unclosed_block_disable_all_extends_to_eof() {
    let source = "# rubyfast:disable all\nx = 1\ny = 2\n";
    let set = parse_and_build(source);
    assert!(set.is_disabled(2, OffenseKind::ShuffleFirstVsSample));
    assert!(set.is_disabled(3, OffenseKind::GsubVsTr));
}

#[test]
fn empty_disable_directive_ignored() {
    let source = "x = 1 # rubyfast:disable\n";
    let set = parse_and_build(source);
    assert!(!set.is_disabled(1, OffenseKind::ShuffleFirstVsSample));
}

#[test]
fn empty_disable_next_line_directive_ignored() {
    let source = "# rubyfast:disable-next-line\nx = [].shuffle.first\n";
    let set = parse_and_build(source);
    assert!(!set.is_disabled(2, OffenseKind::ShuffleFirstVsSample));
}

#[test]
fn empty_enable_directive_ignored() {
    let source = "# rubyfast:enable\n";
    let set = parse_and_build(source);
    assert!(!set.is_disabled(1, OffenseKind::ShuffleFirstVsSample));
}

#[test]
fn is_trailing_at_start_of_file() {
    let source = b"# comment\nx = 1\n";
    assert!(!is_trailing_comment(source, 0));
}

#[test]
fn unrecognized_directive_action_ignored() {
    let source = "x = 1 # rubyfast:freeze all\n";
    let set = parse_and_build(source);
    assert!(!set.is_disabled(1, OffenseKind::ShuffleFirstVsSample));
}

#[test]
fn enable_without_matching_disable_is_noop() {
    let source = "# rubyfast:enable for_loop_vs_each\nfor x in [1]; end\n";
    let set = parse_and_build(source);
    assert!(!set.is_disabled(2, OffenseKind::ForLoopVsEach));
}

#[test]
fn method_call_scanner_shuffle_first() {
    let o = parse_and_collect(b"[].shuffle.first");
    assert!(
        o.iter()
            .any(|x| x.kind == OffenseKind::ShuffleFirstVsSample)
    );
}

#[test]
fn method_call_scanner_reverse_each() {
    let o = parse_and_collect(b"arr.reverse.each { |x| x }");
    assert!(
        o.iter()
            .any(|x| x.kind == OffenseKind::ReverseEachVsReverseEach)
    );
}

#[test]
fn method_call_scanner_keys_each() {
    let o = parse_and_collect(b"h.keys.each { |k| k }");
    assert!(o.iter().any(|x| x.kind == OffenseKind::KeysEachVsEachKey));
}

#[test]
fn keys_with_arg_each_no_fire() {
    let o = parse_and_collect(b"redis.keys('queue:*').each { |q| q }");
    assert!(!o.iter().any(|x| x.kind == OffenseKind::KeysEachVsEachKey));
}

#[test]
fn gsub_single_chars() {
    let o = parse_and_collect(b"s.gsub('r', 'k')");
    assert!(o.iter().any(|x| x.kind == OffenseKind::GsubVsTr));
}

#[test]
fn gsub_multi_char_no_fire() {
    let o = parse_and_collect(b"s.gsub('pet', 'fat')");
    assert!(!o.iter().any(|x| x.kind == OffenseKind::GsubVsTr));
}

#[test]
fn fetch_two_args() {
    let o = parse_and_collect(b"h.fetch(:key, [])");
    assert!(
        o.iter()
            .any(|x| x.kind == OffenseKind::FetchWithArgumentVsBlock)
    );
}

#[test]
fn fetch_with_block_no_fire() {
    let o = parse_and_collect(b"Rails.cache.fetch('key', expires_in: 1.hour) { compute }");
    assert!(
        !o.iter()
            .any(|x| x.kind == OffenseKind::FetchWithArgumentVsBlock)
    );
}

#[test]
fn merge_bang_single_pair() {
    let o = parse_and_collect(b"h.merge!(item: 1)");
    assert!(
        o.iter()
            .any(|x| x.kind == OffenseKind::HashMergeBangVsHashBrackets)
    );
}

#[test]
fn merge_bang_explicit_hash() {
    let o = parse_and_collect(b"h.merge!({item: 1})");
    assert!(
        o.iter()
            .any(|x| x.kind == OffenseKind::HashMergeBangVsHashBrackets)
    );
}

#[test]
fn merge_bang_two_pairs_no_fire() {
    let o = parse_and_collect(b"h.merge!(a: 1, b: 2)");
    assert!(
        !o.iter()
            .any(|x| x.kind == OffenseKind::HashMergeBangVsHashBrackets)
    );
}

#[test]
fn method_call_scanner_each_with_index() {
    let o = parse_and_collect(b"arr.each_with_index { |x, i| x }");
    assert!(
        o.iter()
            .any(|x| x.kind == OffenseKind::EachWithIndexVsWhile)
    );
}

#[test]
fn include_on_range() {
    let o = parse_and_collect(b"(1..10).include?(5)");
    assert!(
        o.iter()
            .any(|x| x.kind == OffenseKind::IncludeVsCoverOnRange)
    );
}

#[test]
fn sort_with_block() {
    let o = parse_and_collect(b"arr.sort { |a, b| a <=> b }");
    assert!(o.iter().any(|x| x.kind == OffenseKind::SortVsSortBy));
}

#[test]
fn select_first_with_block() {
    let o = parse_and_collect(b"arr.select { |x| x > 1 }.first");
    assert!(o.iter().any(|x| x.kind == OffenseKind::SelectFirstVsDetect));
}

#[test]
fn select_last_with_block() {
    let o = parse_and_collect(b"arr.select { |x| x > 1 }.last");
    assert!(
        o.iter()
            .any(|x| x.kind == OffenseKind::SelectLastVsReverseDetect)
    );
}

#[test]
fn map_flatten_one() {
    let o = parse_and_collect(b"arr.map { |e| [e, e] }.flatten(1)");
    assert!(o.iter().any(|x| x.kind == OffenseKind::MapFlattenVsFlatMap));
}

#[test]
fn map_flatten_no_arg_no_fire() {
    let o = parse_and_collect(b"arr.map { |e| [e, e] }.flatten");
    assert!(!o.iter().any(|x| x.kind == OffenseKind::MapFlattenVsFlatMap));
}

#[test]
fn method_call_scanner_block_vs_symbol_to_proc() {
    let o = parse_and_collect(b"arr.map { |x| x.to_s }");
    assert!(o.iter().any(|x| x.kind == OffenseKind::BlockVsSymbolToProc));
}

#[test]
fn block_with_args_no_symbol_to_proc() {
    let o = parse_and_collect(b"arr.map { |x| x.to_s(16) }");
    assert!(!o.iter().any(|x| x.kind == OffenseKind::BlockVsSymbolToProc));
}

#[test]
fn lambda_no_symbol_to_proc() {
    let o = parse_and_collect(b"->(x) { x.to_s }");
    assert!(!o.iter().any(|x| x.kind == OffenseKind::BlockVsSymbolToProc));
}

#[test]
fn first_not_on_shuffle_no_fire() {
    let o = parse_and_collect(b"arr.first");
    assert!(
        !o.iter()
            .any(|x| x.kind == OffenseKind::ShuffleFirstVsSample)
    );
}

#[test]
fn reverse_not_each_no_fire() {
    let o = parse_and_collect(b"arr.reverse.map { |x| x }");
    assert!(
        !o.iter()
            .any(|x| x.kind == OffenseKind::ReverseEachVsReverseEach)
    );
}

#[test]
fn select_first_with_block_pass() {
    let o = parse_and_collect(b"arr.select(&:odd?).first");
    assert!(o.iter().any(|x| x.kind == OffenseKind::SelectFirstVsDetect));
}

#[test]
fn select_last_with_block_pass() {
    let o = parse_and_collect(b"arr.select(&:odd?).last");
    assert!(
        o.iter()
            .any(|x| x.kind == OffenseKind::SelectLastVsReverseDetect)
    );
}

#[test]
fn map_flatten_with_arg_2_no_fire() {
    let o = parse_and_collect(b"arr.map { |e| [e] }.flatten(2)");
    assert!(!o.iter().any(|x| x.kind == OffenseKind::MapFlattenVsFlatMap));
}

#[test]
fn select_first_with_args_no_fire() {
    let o = parse_and_collect(b"arr.select { |x| x > 1 }.first(3)");
    assert!(!o.iter().any(|x| x.kind == OffenseKind::SelectFirstVsDetect));
}

#[test]
fn select_last_with_args_no_fire() {
    let o = parse_and_collect(b"arr.select { |x| x > 1 }.last(3)");
    assert!(
        !o.iter()
            .any(|x| x.kind == OffenseKind::SelectLastVsReverseDetect)
    );
}

#[test]
fn module_eval_with_def_string() {
    let o = parse_and_collect(b"klass.module_eval(\"def foo; end\")");
    assert!(o.iter().any(|x| x.kind == OffenseKind::ModuleEval));
}

#[test]
fn module_eval_without_def_no_fire() {
    let o = parse_and_collect(b"klass.module_eval(\"puts 1\")");
    assert!(!o.iter().any(|x| x.kind == OffenseKind::ModuleEval));
}

#[test]
fn module_eval_non_string_no_fire() {
    let o = parse_and_collect(b"klass.module_eval(some_var)");
    assert!(!o.iter().any(|x| x.kind == OffenseKind::ModuleEval));
}

#[test]
fn module_eval_with_block() {
    let o = parse_and_collect(b"klass.module_eval { define_method(:foo) {} }");
    assert!(!o.iter().any(|x| x.kind == OffenseKind::ModuleEval));
}

#[test]
fn block_multiple_args_no_symbol_to_proc() {
    let o = parse_and_collect(b"arr.each_with_object([]) { |x, acc| x.to_s }");
    assert!(!o.iter().any(|x| x.kind == OffenseKind::BlockVsSymbolToProc));
}

#[test]
fn block_no_body_no_symbol_to_proc() {
    let o = parse_and_collect(b"arr.map { |x| }");
    assert!(!o.iter().any(|x| x.kind == OffenseKind::BlockVsSymbolToProc));
}

#[test]
fn block_receiver_not_lvar_no_symbol_to_proc() {
    let o = parse_and_collect(b"arr.map { |x| @y.to_s }");
    assert!(!o.iter().any(|x| x.kind == OffenseKind::BlockVsSymbolToProc));
}

#[test]
fn block_receiver_is_primitive_no_symbol_to_proc() {
    let o = parse_and_collect(b"arr.map { |x| 42.to_s }");
    assert!(!o.iter().any(|x| x.kind == OffenseKind::BlockVsSymbolToProc));
}

#[test]
fn hash_merge_bang_no_args_no_fire() {
    let o = parse_and_collect(b"h.merge!");
    assert!(
        !o.iter()
            .any(|x| x.kind == OffenseKind::HashMergeBangVsHashBrackets)
    );
}

#[test]
fn gsub_one_arg_no_fire() {
    let o = parse_and_collect(b"s.gsub('x')");
    assert!(!o.iter().any(|x| x.kind == OffenseKind::GsubVsTr));
}

#[test]
fn fetch_one_arg_no_fire() {
    let o = parse_and_collect(b"h.fetch(:key)");
    assert!(
        !o.iter()
            .any(|x| x.kind == OffenseKind::FetchWithArgumentVsBlock)
    );
}

#[test]
fn include_not_on_range_no_fire() {
    let o = parse_and_collect(b"[1,2,3].include?(5)");
    assert!(
        !o.iter()
            .any(|x| x.kind == OffenseKind::IncludeVsCoverOnRange)
    );
}

#[test]
fn include_on_exclusive_range() {
    let o = parse_and_collect(b"(1...10).include?(5)");
    assert!(
        o.iter()
            .any(|x| x.kind == OffenseKind::IncludeVsCoverOnRange)
    );
}

#[test]
fn include_on_parenthesized_range() {
    let o = parse_and_collect(b"(1..10).include?(5)");
    assert!(
        o.iter()
            .any(|x| x.kind == OffenseKind::IncludeVsCoverOnRange)
    );
}

#[test]
fn sort_without_block_no_fire() {
    let o = parse_and_collect(b"arr.sort");
    assert!(!o.iter().any(|x| x.kind == OffenseKind::SortVsSortBy));
}

#[test]
fn block_wrong_lvar_name_no_symbol_to_proc() {
    let o = parse_and_collect(b"arr.map { |x| y.to_s }");
    assert!(!o.iter().any(|x| x.kind == OffenseKind::BlockVsSymbolToProc));
}

#[test]
fn block_with_args_on_outer_no_symbol_to_proc() {
    let o = parse_and_collect(b"arr.inject(0) { |x| x.to_s }");
    assert!(!o.iter().any(|x| x.kind == OffenseKind::BlockVsSymbolToProc));
}

#[test]
fn module_eval_with_heredoc_containing_def() {
    let o = parse_and_collect(b"klass.module_eval(<<~RUBY)\n  def foo\n    42\n  end\nRUBY\n");
    assert!(o.iter().any(|x| x.kind == OffenseKind::ModuleEval));
}

#[test]
fn keys_each_with_keys_having_args_no_fire() {
    let o = parse_and_collect(b"h.keys(\"x\").each { |k| k }");
    assert!(!o.iter().any(|x| x.kind == OffenseKind::KeysEachVsEachKey));
}

#[test]
fn each_with_index_without_block_still_fires() {
    let o = parse_and_collect(b"arr.each_with_index");
    assert!(
        o.iter()
            .any(|x| x.kind == OffenseKind::EachWithIndexVsWhile)
    );
}

#[test]
fn fetch_with_block_pass_no_fire() {
    let o = parse_and_collect(b"h.fetch(:key, &block)");
    assert!(
        !o.iter()
            .any(|x| x.kind == OffenseKind::FetchWithArgumentVsBlock)
    );
}

#[test]
fn getter_fires() {
    let offenses = parse_and_scan(b"def name; @name; end");
    assert!(
        offenses
            .iter()
            .any(|o| o.kind == OffenseKind::GetterVsAttrReader)
    );
}

#[test]
fn getter_with_assignment_does_not_fire() {
    let offenses = parse_and_scan(b"def name; @name = 1; end");
    assert!(
        !offenses
            .iter()
            .any(|o| o.kind == OffenseKind::GetterVsAttrReader)
    );
}

#[test]
fn setter_fires() {
    let offenses = parse_and_scan(b"def name=(value); @name = value; end");
    assert!(
        offenses
            .iter()
            .any(|o| o.kind == OffenseKind::SetterVsAttrWriter)
    );
}

#[test]
fn proc_call_fires() {
    let offenses = parse_and_scan(b"def foo(&block); block.call; end");
    assert!(
        offenses
            .iter()
            .any(|o| o.kind == OffenseKind::ProcCallVsYield)
    );
}

#[test]
fn no_block_arg_no_proc_call() {
    let offenses = parse_and_scan(b"def foo; block.call; end");
    assert!(
        !offenses
            .iter()
            .any(|o| o.kind == OffenseKind::ProcCallVsYield)
    );
}

#[test]
fn setter_wrong_ivar_name_no_fire() {
    let offenses = parse_and_scan(b"def name=(v); @other = v; end");
    assert!(
        !offenses
            .iter()
            .any(|o| o.kind == OffenseKind::SetterVsAttrWriter)
    );
}

#[test]
fn setter_wrong_value_no_fire() {
    let offenses = parse_and_scan(b"def name=(v); @name = 42; end");
    assert!(
        !offenses
            .iter()
            .any(|o| o.kind == OffenseKind::SetterVsAttrWriter)
    );
}

#[test]
fn setter_multiple_args_no_fire() {
    let offenses = parse_and_scan(b"def name=(a, b); @name = a; end");
    assert!(
        !offenses
            .iter()
            .any(|o| o.kind == OffenseKind::SetterVsAttrWriter)
    );
}

#[test]
fn setter_no_body_no_fire() {
    let offenses = parse_and_scan(b"def name=(v); end");
    assert!(
        !offenses
            .iter()
            .any(|o| o.kind == OffenseKind::SetterVsAttrWriter)
    );
}

#[test]
fn getter_with_args_no_fire() {
    let offenses = parse_and_scan(b"def name(x); @name; end");
    assert!(
        !offenses
            .iter()
            .any(|o| o.kind == OffenseKind::GetterVsAttrReader)
    );
}

#[test]
fn getter_multiple_body_stmts_no_fire() {
    let offenses = parse_and_scan(b"def name; puts 'x'; @name; end");
    assert!(
        !offenses
            .iter()
            .any(|o| o.kind == OffenseKind::GetterVsAttrReader)
    );
}

#[test]
fn getter_wrong_ivar_no_fire() {
    let offenses = parse_and_scan(b"def name; @other; end");
    assert!(
        !offenses
            .iter()
            .any(|o| o.kind == OffenseKind::GetterVsAttrReader)
    );
}

#[test]
fn getter_no_body_no_fire() {
    let offenses = parse_and_scan(b"def name; end");
    assert!(
        !offenses
            .iter()
            .any(|o| o.kind == OffenseKind::GetterVsAttrReader)
    );
}

#[test]
fn proc_call_nested_in_body() {
    let offenses = parse_and_scan(b"def foo(&block); if true; block.call; end; end");
    assert!(
        offenses
            .iter()
            .any(|o| o.kind == OffenseKind::ProcCallVsYield)
    );
}

#[test]
fn setter_name_method_is_not_getter() {
    // name= should not trigger getter check
    let offenses = parse_and_scan(b"def name=(v); @name = v; end");
    assert!(
        !offenses
            .iter()
            .any(|o| o.kind == OffenseKind::GetterVsAttrReader)
    );
}

#[test]
fn setter_body_not_ivasgn_no_fire() {
    let offenses = parse_and_scan(b"def name=(v); puts v; end");
    assert!(
        !offenses
            .iter()
            .any(|o| o.kind == OffenseKind::SetterVsAttrWriter)
    );
}

#[test]
fn rescue_no_method_error_fires() {
    let offenses = parse_and_find_rescue_bodies(b"begin; rescue NoMethodError; end");
    assert_eq!(offenses.len(), 1);
}

#[test]
fn rescue_standard_error_does_not_fire() {
    let offenses = parse_and_find_rescue_bodies(b"begin; rescue StandardError; end");
    assert_eq!(offenses.len(), 0);
}

#[test]
fn bare_rescue_does_not_fire() {
    let offenses = parse_and_find_rescue_bodies(b"begin; rescue; end");
    assert_eq!(offenses.len(), 0);
}

#[test]
fn multiple_exceptions_including_no_method_error() {
    let offenses =
        parse_and_find_rescue_bodies(b"begin; rescue ArgumentError, NoMethodError; end");
    assert_eq!(offenses.len(), 1);
}

#[test]
fn scoped_no_method_error_no_fire() {
    let offenses =
        parse_and_find_rescue_bodies(b"begin; rescue SomeModule::NoMethodError; end");
    assert_eq!(offenses.len(), 0);
}

#[test]
fn rescue_other_error_no_fire() {
    let offenses = parse_and_find_rescue_bodies(b"begin; rescue TypeError; end");
    assert_eq!(offenses.len(), 0);
}

#[test]
fn for_loop_always_fires() {
    let source = b"for x in [1,2,3]; end";
    let f = parse_first_for(source);
    let offenses = for_loop_scanner::scan(&f, source);
    assert_eq!(offenses.len(), 1);
    assert_eq!(offenses[0].kind, OffenseKind::ForLoopVsEach);
    assert!(offenses[0].fix.is_some());
}

#[test]
fn fix_for_loop_with_do() {
    let source = b"for x in arr do\n  puts x\nend";
    let f = parse_first_for(source);
    let fix = for_loop_scanner::build_fix(&f, source).unwrap();
    let (fixed, _) = apply_fixes(source, &[fix]);
    assert_eq!(
        String::from_utf8(fixed).unwrap(),
        "arr.each do |x|\n  puts x\nend"
    );
}

#[test]
fn fix_for_loop_with_semicolon() {
    let source = b"for x in [1,2,3]; puts x; end";
    let f = parse_first_for(source);
    let fix = for_loop_scanner::build_fix(&f, source).unwrap();
    let (fixed, _) = apply_fixes(source, &[fix]);
    let fixed_str = String::from_utf8(fixed).unwrap();
    assert!(fixed_str.starts_with("[1,2,3].each do |x|"));
}

#[test]
fn fix_for_loop_newline_only() {
    let source = b"for x in arr\n  puts x\nend";
    let f = parse_first_for(source);
    let fix = for_loop_scanner::build_fix(&f, source).unwrap();
    let (fixed, _) = apply_fixes(source, &[fix]);
    assert_eq!(
        String::from_utf8(fixed).unwrap(),
        "arr.each do |x|\n  puts x\nend"
    );
}

#[test]
fn extract_trimmed_valid() {
    let source = b"  hello  ";
    let result = extract_trimmed(source, 0, 9);
    assert_eq!(result, Some("hello".to_string()));
}

#[test]
fn extract_trimmed_start_ge_end() {
    assert_eq!(extract_trimmed(b"hello", 5, 3), None);
    assert_eq!(extract_trimmed(b"hello", 3, 3), None);
}

#[test]
fn extract_trimmed_end_gt_len() {
    assert_eq!(extract_trimmed(b"hi", 0, 10), None);
}

#[test]
fn extract_trimmed_empty_after_trim() {
    let result = extract_trimmed(b"   ", 0, 3);
    assert_eq!(result, Some("".to_string()));
}

#[test]
fn scan_always_returns_offense() {
    let source = b"for x in arr; end";
    let f = parse_first_for(source);
    let offenses = for_loop_scanner::scan(&f, source);
    assert_eq!(offenses.len(), 1);
    assert_eq!(offenses[0].kind, OffenseKind::ForLoopVsEach);
}

#[test]
fn visitor_counts_nodes() {
    let total = count_all_nodes(&parse_tree(b"a + b"));
    assert!(total > 1, "Expected multiple nodes, got {}", total);
}

#[test]
fn visitor_handles_many_node_types() {
    let sources: &[&[u8]] = &[
        b"alias new_method old_method",
        b"a && b || c",
        b"[1, 2, 3]",
        b"case x; when 1; 'a'; else 'c'; end",
        b"FOO = 1",
        b"class Foo < Bar; end",
        b"Foo::Bar",
        b"def foo(a); end",
        b"defined?(x)",
        b"\"hello #{world}\"",
        b"begin; 1; ensure; 2; end",
        b"1...10; 1..10",
        b"for x in [1]; end",
        b"{a: 1, b: 2}",
        b"if true; 1; else; 2; end",
        b"@x = 1; @x",
        b"x = 42",
        b"module Foo; end",
        b"def foo; return 1; end",
        b"x += 1",
        b"begin; rescue StandardError => e; end",
        b"class << self; end",
        b"foo.bar(1, 2)",
        b"'hello'",
        b"def foo; super(1); end",
        b"until false; end",
        b"while true; break; end",
        b"def foo; yield 1; end",
        b"arr.select(&:odd?)",
        b"arr.map { |x| x.to_s }",
        b"-> { 1 }",
    ];

    for source in sources {
        let total = count_all_nodes(&parse_tree(source));
        assert!(
            total > 0,
            "No nodes in AST for {:?}",
            std::str::from_utf8(source)
        );
    }
}

#[test]
fn leaf_nodes_have_no_extra_children() {
    let leaf_sources: &[&[u8]] = &[b"42", b"3.14", b"'s'", b":sym", b"true", b"false", b"nil"];

    for source in leaf_sources {
        let node = parse_first_stmt(source);
        let child_count = for_each_direct_child(&node).len();
        assert_eq!(
            child_count,
            0,
            "Expected 0 children for {:?}",
            std::str::from_utf8(source)
        );
    }
}

// ---------------------------------------------------------------------
// Whole-file analysis.

fn analyze_text(source: &str, config: &rubyfast::config::Config) -> Vec<Offense> {
    rubyfast::analyzer::analyze_file_source("test.rb", source.as_bytes(), config)
        .unwrap()
        .offenses
}

fn kinds_of(offenses: &[Offense]) -> Vec<OffenseKind> {
    offenses.iter().map(|o| o.kind).collect()
}

#[test]
fn analysis_reports_lines_not_offsets() {
    let config = rubyfast::config::Config::default();
    let offenses = analyze_text("x = 1\ny = 2\nfor i in [1]; end\n", &config);
    assert_eq!(offenses.len(), 1);
    assert_eq!(offenses[0].kind, OffenseKind::ForLoopVsEach);
    assert_eq!(offenses[0].line, 3);
}

#[test]
fn analysis_of_source_with_syntax_errors_is_empty() {
    let config = rubyfast::config::Config::default();
    assert!(analyze_text("def def def", &config).is_empty());
    assert!(analyze_text("for x in [1]; end\ndef (", &config).is_empty());
}

#[test]
fn analysis_of_empty_source_is_empty() {
    let config = rubyfast::config::Config::default();
    assert!(analyze_text("", &config).is_empty());
}

#[test]
fn analysis_respects_config() {
    let config = rubyfast::config::Config::from_speedups(
        &[("for_loop_vs_each".to_string(), false)],
        vec![],
    );
    assert!(analyze_text("for x in [1]; end", &config).is_empty());
    let offenses = analyze_text("for x in [1]; end\n[].shuffle.first\n", &config);
    assert_eq!(kinds_of(&offenses), vec![OffenseKind::ShuffleFirstVsSample]);
    assert_eq!(offenses[0].line, 2);
}

#[test]
fn analysis_respects_inline_disable() {
    let config = rubyfast::config::Config::default();
    let offenses =
        analyze_text("for x in [1]; end # rubyfast:disable for_loop_vs_each\nfor y in [2]; end\n", &config);
    assert_eq!(offenses.len(), 1);
    assert_eq!(offenses[0].line, 2);
}

#[test]
fn analysis_finds_symbol_to_proc_in_block() {
    let config = rubyfast::config::Config::default();
    let offenses = analyze_text("arr.map { |x| x.to_s }", &config);
    assert_eq!(kinds_of(&offenses), vec![OffenseKind::BlockVsSymbolToProc]);
}

#[test]
fn analysis_finds_for_loop_inside_method() {
    let config = rubyfast::config::Config::default();
    let offenses = analyze_text("def foo\n  for x in [1,2]; puts x; end\nend\n", &config);
    assert_eq!(kinds_of(&offenses), vec![OffenseKind::ForLoopVsEach]);
    assert_eq!(offenses[0].line, 2);
}

#[test]
fn analysis_scans_every_rescue_clause() {
    let config = rubyfast::config::Config::default();
    let source = "begin\n  x\nrescue ArgumentError\n  y\nrescue NoMethodError\n  [].shuffle.first\nend\n";
    let offenses = analyze_text(source, &config);
    assert_eq!(
        kinds_of(&offenses),
        vec![OffenseKind::RescueVsRespondTo, OffenseKind::ShuffleFirstVsSample]
    );
    assert_eq!(offenses[0].line, 5);
    assert_eq!(offenses[1].line, 6);
}

#[test]
fn analysis_order_follows_the_tree() {
    let config = rubyfast::config::Config::default();
    let source = "def name; @name; end\narr.select { |x| x }.first\n";
    let offenses = analyze_text(source, &config);
    assert_eq!(
        kinds_of(&offenses),
        vec![OffenseKind::GetterVsAttrReader, OffenseKind::SelectFirstVsDetect]
    );
}

#[test]
fn analysis_does_not_scan_method_parameters() {
    let config = rubyfast::config::Config::default();
    let offenses = analyze_text("def foo(a = [].shuffle.first); end\n", &config);
    assert!(offenses.is_empty());
}

#[test]
fn fixes_from_analysis_rewrite_the_source() {
    let config = rubyfast::config::Config::default();
    let source = "x = [1, 2].shuffle.first\nfor i in list do\n  puts i\nend\n";
    let result =
        rubyfast::analyzer::analyze_file_source("a.rb", source.as_bytes(), &config).unwrap();
    let fixes = rubyfast::output::fixes_of(&result);
    assert_eq!(fixes.len(), 2);
    let (fixed, applied) = rubyfast::fix::fixed_source(source.as_bytes(), &fixes).unwrap();
    assert_eq!(applied, 2);
    assert_eq!(
        String::from_utf8(fixed).unwrap(),
        "x = [1, 2].sample\nlist.each do |i|\n  puts i\nend\n"
    );
}

#[test]
fn select_first_fix_renames_and_drops() {
    let offenses = parse_and_collect(b"arr.select { |x| x > 1 }.first");
    let o = offenses
        .iter()
        .find(|o| o.kind == OffenseKind::SelectFirstVsDetect)
        .unwrap();
    let fix = o.fix.as_ref().unwrap();
    let (fixed, _) = apply_fixes(b"arr.select { |x| x > 1 }.first", &[rubyfast::fix::Fix {
        replacements: fix.replacements.clone(),
    }]);
    assert_eq!(String::from_utf8(fixed).unwrap(), "arr.detect { |x| x > 1 }");
}

#[test]
fn map_flatten_fix_uses_flat_map() {
    let source = b"arr.map { |e| [e, e] }.flatten(1)";
    let offenses = parse_and_collect(source);
    let o = offenses
        .iter()
        .find(|o| o.kind == OffenseKind::MapFlattenVsFlatMap)
        .unwrap();
    let (fixed, _) = apply_fixes(source, &[o.fix.clone().unwrap()]);
    assert_eq!(String::from_utf8(fixed).unwrap(), "arr.flat_map { |e| [e, e] }");
}

#[test]
fn reverse_each_and_keys_each_and_gsub_and_cover_fixes() {
    let cases: &[(&[u8], OffenseKind, &str)] = &[
        (b"arr.reverse.each { |x| x }", OffenseKind::ReverseEachVsReverseEach, "arr.reverse_each { |x| x }"),
        (b"h.keys.each { |k| k }", OffenseKind::KeysEachVsEachKey, "h.each_key { |k| k }"),
        (b"s.gsub('r', 'k')", OffenseKind::GsubVsTr, "s.tr('r', 'k')"),
        (b"(1..10).include?(5)", OffenseKind::IncludeVsCoverOnRange, "(1..10).cover?(5)"),
    ];
    for (source, kind, expected) in cases {
        let offenses = parse_and_collect(source);
        let o = offenses.iter().find(|o| o.kind == *kind).unwrap();
        let (fixed, _) = apply_fixes(source, &[o.fix.clone().unwrap()]);
        assert_eq!(String::from_utf8(fixed).unwrap(), *expected);
    }
}

#[test]
fn offenses_are_located_at_call_start() {
    let offenses = parse_and_collect(b"x = 1; [].shuffle.first");
    assert_eq!(offenses.len(), 1);
    assert_eq!(offenses[0].line, 7);
}

#[test]
fn def_first_arg_name_decodes_invalid_bytes_lossily() {
    let def = DefNode {
        name: b"f=".to_vec(),
        parameters: Some(Box::new(SyntaxNode::Parameters(ParametersNode {
            requireds: vec![SyntaxNode::RequiredParameter { name: vec![b'a', 0xff] }],
            block: None,
        }))),
        body: None,
        def_keyword_loc: Loc { start: 0, end: 3 },
    };
    assert_eq!(def_first_arg_name(&def), Some("a\u{FFFD}".to_string()));
}

#[test]
fn rescue_scanner_reports_at_keyword() {
    let rescue = RescueNode {
        exceptions: vec![
            SyntaxNode::ConstantRead { name: b"TypeError".to_vec() },
            SyntaxNode::ConstantRead { name: b"NoMethodError".to_vec() },
        ],
        reference: None,
        statements: vec![],
        subsequent: None,
        keyword_loc: Loc { start: 7, end: 13 },
    };
    let offenses = rescue_scanner::scan(&rescue);
    assert_eq!(offenses.len(), 1);
    assert_eq!(offenses[0].kind, OffenseKind::RescueVsRespondTo);
    assert_eq!(offenses[0].line, 7);
}

// ---------------------------------------------------------------------
// Inline directives: the laws on concrete files.

#[test]
fn block_disable_pairs_with_its_own_rule() {
    let source = "# rubyfast:disable for_loop_vs_each\n# rubyfast:disable gsub_vs_tr\nx = 1\n# rubyfast:enable for_loop_vs_each\ny = 2\n# rubyfast:enable gsub_vs_tr\nz = 3\n";
    let set = parse_and_build(source);
    assert!(set.is_disabled(3, OffenseKind::ForLoopVsEach));
    assert!(!set.is_disabled(5, OffenseKind::ForLoopVsEach));
    assert!(set.is_disabled(3, OffenseKind::GsubVsTr));
    assert!(set.is_disabled(5, OffenseKind::GsubVsTr));
    assert!(!set.is_disabled(7, OffenseKind::GsubVsTr));
}

#[test]
fn enable_closes_the_latest_block_of_a_rule() {
    let source = "# rubyfast:disable gsub_vs_tr\na\n# rubyfast:disable gsub_vs_tr\nb\n# rubyfast:enable gsub_vs_tr\nc\n";
    let set = parse_and_build(source);
    assert!(set.is_disabled(2, OffenseKind::GsubVsTr));
    assert!(set.is_disabled(4, OffenseKind::GsubVsTr));
    assert!(set.is_disabled(6, OffenseKind::GsubVsTr));
}

#[test]
fn disable_all_trailing_covers_every_rule() {
    let set = parse_and_build("a # rubyfast:disable all\nb\n");
    for kind in OffenseKind::all() {
        assert!(set.is_disabled(1, kind));
        assert!(!set.is_disabled(2, kind));
    }
}

#[test]
fn directive_needs_known_prefix() {
    let set = parse_and_build("x = 1 # rubocop:disable for_loop_vs_each\n");
    assert!(!set.is_disabled(1, OffenseKind::ForLoopVsEach));
}

#[test]
fn directive_prefix_after_several_hashes_and_spaces() {
    let set = parse_and_build("x = 1 ##   rubyfast:disable   gsub_vs_tr ,  all  \n");
    assert!(set.is_disabled(1, OffenseKind::GsubVsTr));
    assert!(set.is_disabled(1, OffenseKind::SortVsSortBy));
}

#[test]
fn non_utf8_comment_is_ignored() {
    let mut source = b"x = 1 # rubyfast:disable gsub_vs_tr \xff\n".to_vec();
    source.extend_from_slice(b"y = 2\n");
    let set = disabled_set_of_source(&source).unwrap();
    assert!(!set.is_disabled(1, OffenseKind::GsubVsTr));
}

#[test]
fn is_trailing_comment_after_code() {
    let source = b"x = 1 # c\n  # d\n";
    assert!(is_trailing_comment(source, 6));
    assert!(!is_trailing_comment(source, 12));
}

#[test]
fn descendants_are_in_preorder() {
    let root = parse_tree(b"a.b(c)");
    let all = for_each_descendant(&root);
    let call_names: Vec<Vec<u8>> = all
        .iter()
        .filter_map(|n| match n {
            SyntaxNode::Call(c) => Some(c.name.clone()),
            _ => None,
        })
        .collect();
    assert_eq!(call_names, vec![b"b".to_vec(), b"a".to_vec(), b"c".to_vec()]);
}

#[test]
fn analysis_gives_fixes_only_to_fixable_kinds() {
    let config = rubyfast::config::Config::default();
    let source = "a = [1].shuffle.first\nb = [2].select { |x| x }.last\nc = h.fetch(:k, 1)\n\
                  for i in [3]\n  puts i\nend\nd = [4].sort { |x, y| x <=> y }\n";
    let offenses = analyze_text(source, &config);
    let fixable = [
        OffenseKind::ShuffleFirstVsSample,
        OffenseKind::SelectFirstVsDetect,
        OffenseKind::ReverseEachVsReverseEach,
        OffenseKind::KeysEachVsEachKey,
        OffenseKind::MapFlattenVsFlatMap,
        OffenseKind::GsubVsTr,
        OffenseKind::IncludeVsCoverOnRange,
        OffenseKind::ForLoopVsEach,
    ];
    assert!(offenses.len() >= 5);
    for o in &offenses {
        if o.fix.is_some() {
            assert!(fixable.contains(&o.kind), "{:?} carries a fix", o.kind);
        }
    }
    let with_fix: Vec<OffenseKind> =
        offenses.iter().filter(|o| o.fix.is_some()).map(|o| o.kind).collect();
    assert_eq!(with_fix, vec![OffenseKind::ShuffleFirstVsSample, OffenseKind::ForLoopVsEach]);
}

#[test]
fn disabling_one_rule_keeps_other_rules_reported() {
    let config = rubyfast::config::Config::default();
    let offenses = analyze_text(
        "x = [].shuffle.first # rubyfast:disable for_loop_vs_each\n\
         # rubyfast:disable gsub_vs_tr\n\
         y = [].shuffle.first\n",
        &config,
    );
    assert_eq!(
        kinds_of(&offenses),
        vec![OffenseKind::ShuffleFirstVsSample, OffenseKind::ShuffleFirstVsSample]
    );
}

// ---------------------------------------------------------------------
// One source per rule, each analyzed as a whole file.

fn fixture_kinds(source: &str) -> Vec<OffenseKind> {
    kinds_of(&analyze_text(source, &rubyfast::config::Config::default()))
}

fn count_kind(kinds: &[OffenseKind], target: OffenseKind) -> usize {
    kinds.iter().filter(|&&k| k == target).count()
}

#[test]
fn fixture_tests_shuffle_first() {
    let kinds = fixture_kinds(
        "a = [1, 2, 3].shuffle.first\nb = list.shuffle.first\nc = [4, 5].shuffle.first\n\
         d = [1, 2].shuffle\ne = [1, 2].first\n",
    );
    assert_eq!(count_kind(&kinds, OffenseKind::ShuffleFirstVsSample), 3);
}

#[test]
fn select_first() {
    let kinds = fixture_kinds(
        "a = arr.select { |x| x > 1 }.first\nb = arr.select { |x| x.odd? }.first\n\
         c = arr.select(&:even?).first\nd = arr.select { |x| x }\n",
    );
    assert_eq!(count_kind(&kinds, OffenseKind::SelectFirstVsDetect), 3);
}

#[test]
fn select_last() {
    let kinds = fixture_kinds("a = arr.select { |x| x > 1 }.last\nb = arr.last\n");
    assert_eq!(count_kind(&kinds, OffenseKind::SelectLastVsReverseDetect), 1);
}

#[test]
fn fixture_tests_reverse_each() {
    let kinds = fixture_kinds(
        "arr.reverse.each { |x| puts x }\n[1, 2].reverse.each do |y|\n  puts y\nend\narr.reverse\n",
    );
    assert_eq!(count_kind(&kinds, OffenseKind::ReverseEachVsReverseEach), 2);
}

#[test]
fn fixture_tests_keys_each() {
    let kinds = fixture_kinds(
        "h.keys.each { |k| puts k }\nhash.keys.each do |k|\n  puts k\nend\n\
         { a: 1 }.keys.each { |k| puts k }\nh.keys\n",
    );
    assert_eq!(count_kind(&kinds, OffenseKind::KeysEachVsEachKey), 3);
}

#[test]
fn map_flatten() {
    let kinds = fixture_kinds(
        "a = arr.map { |x| [x, x] }.flatten(1)\nb = arr.map(&:to_a).flatten(1)\n\
         c = arr.map { |x| [x] }.flatten\n",
    );
    assert_eq!(count_kind(&kinds, OffenseKind::MapFlattenVsFlatMap), 2);
}

#[test]
fn gsub_vs_tr() {
    let kinds = fixture_kinds(
        "a = s.gsub('a', 'b')\nb = s.gsub(\"x\", \"y\")\nc = s.gsub('ab', 'c')\n",
    );
    assert_eq!(count_kind(&kinds, OffenseKind::GsubVsTr), 2);
}

#[test]
fn sort_vs_sort_by() {
    let kinds = fixture_kinds("a = arr.sort { |x, y| x <=> y }\nb = arr.sort\n");
    assert_eq!(count_kind(&kinds, OffenseKind::SortVsSortBy), 1);
}

#[test]
fn fetch_with_argument() {
    let kinds = fixture_kinds("a = h.fetch(:a, 1)\nb = h.fetch(:b) { 2 }\n");
    assert_eq!(count_kind(&kinds, OffenseKind::FetchWithArgumentVsBlock), 1);
}

#[test]
fn hash_merge_bang() {
    let kinds = fixture_kinds("h.merge!(a: 1)\nh.merge!({ b: 2 })\n");
    assert!(count_kind(&kinds, OffenseKind::HashMergeBangVsHashBrackets) >= 2);
}

#[test]
fn fixture_tests_block_vs_symbol_to_proc() {
    let kinds = fixture_kinds(
        "arr.map { |x| x.to_s }\narr.each { |x| x.save }\narr.select { |x| x.valid? }\n\
         arr.map { |x| x + 1 }\n",
    );
    assert_eq!(count_kind(&kinds, OffenseKind::BlockVsSymbolToProc), 3);
}

#[test]
fn fixture_tests_each_with_index() {
    let kinds = fixture_kinds("arr.each_with_index { |x, i| puts x }\narr.each { |x| puts x }\n");
    assert_eq!(count_kind(&kinds, OffenseKind::EachWithIndexVsWhile), 1);
}

#[test]
fn include_vs_cover() {
    let kinds = fixture_kinds("(1..10).include?(5)\n(1...3).include?(2)\n[1, 2].include?(1)\n");
    assert_eq!(count_kind(&kinds, OffenseKind::IncludeVsCoverOnRange), 2);
}

#[test]
fn module_eval() {
    let kinds = fixture_kinds("Foo.module_eval(\"def bar; end\")\nFoo.module_eval { 1 }\n");
    assert_eq!(count_kind(&kinds, OffenseKind::ModuleEval), 1);
}

#[test]
fn rescue_vs_respond_to() {
    let kinds = fixture_kinds(
        "begin\n  foo\nrescue NoMethodError\n  bar\nend\n\
         begin\n  foo\nrescue NoMethodError => e\n  bar\nend\n\
         begin\n  foo\nrescue StandardError\n  bar\nend\n",
    );
    // 2 rescues with NoMethodError, 1 without
    assert_eq!(count_kind(&kinds, OffenseKind::RescueVsRespondTo), 2);
}

#[test]
fn proc_call_vs_yield() {
    let kinds = fixture_kinds(
        "def a(&block)\n  block.call\nend\n\
         def b(x, &blk)\n  blk.call(x)\nend\n\
         def c(block)\n  block.call\nend\n",
    );
    // 2 methods with &block that call block.call, 1 without &block
    assert_eq!(count_kind(&kinds, OffenseKind::ProcCallVsYield), 2);
}

#[test]
fn getter_vs_attr_reader() {
    let kinds = fixture_kinds(
        "class A\n  def name\n    @name\n  end\n\n  def age; @age; end\n\n  def other\n    @name\n  end\nend\n",
    );
    assert_eq!(count_kind(&kinds, OffenseKind::GetterVsAttrReader), 2);
}

#[test]
fn setter_vs_attr_writer() {
    let kinds = fixture_kinds(
        "class A\n  def name=(value)\n    @name = value\n  end\n\n  def age=(a); @age = a; end\n\n\
         def other=(v)\n    @name = v\n  end\nend\n",
    );
    assert_eq!(count_kind(&kinds, OffenseKind::SetterVsAttrWriter), 2);
}

#[test]
fn for_loop() {
    let kinds = fixture_kinds("for x in [1, 2]\n  puts x\nend\n[1, 2].each { |y| puts y }\n");
    assert_eq!(count_kind(&kinds, OffenseKind::ForLoopVsEach), 1);
}

#[test]
fn inline_disable() {
    let kinds = fixture_kinds(
        "a = [].shuffle.first # rubyfast:disable shuffle_first_vs_sample\n\
         # rubyfast:disable-next-line shuffle_first_vs_sample\n\
         b = [].shuffle.first\n\
         c = [].shuffle.first\n\
         # rubyfast:disable all\n\
         d = [].shuffle.first\n\
         # rubyfast:enable all\n\
         e = [].shuffle.first\n\
         for i in [1]\n  puts i\nend\n",
    );
    assert_eq!(count_kind(&kinds, OffenseKind::ShuffleFirstVsSample), 2);
    assert_eq!(count_kind(&kinds, OffenseKind::ForLoopVsEach), 1);
}

#[test]
fn clean_file_has_no_offenses() {
    let kinds = fixture_kinds("def foo(x)\n  x + 1\nend\n\nputs [1, 2].sample\n");
    assert!(kinds.is_empty(), "Expected no offenses, got: {:?}", kinds);
}
