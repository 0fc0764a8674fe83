//! Source-position helpers (newline tables and line numbers) and small
//! queries on syntax tree nodes shared by the scanners.

use vstd::prelude::*;
use vstd::string::StringSliceAdditionalSpecFns;

use crate::ast::{CallNode, DefNode, SyntaxNode, ParametersNode};
use crate::text::{bytes_eq, bytes_eq_str, contains_run, lossy_string, str_contains, utf8_lossy};

verus! {

/// The byte positions of all newline characters of `s`, in increasing order.
pub open spec fn newline_positions(s: Seq<u8>) -> Seq<usize>
    decreases s.len(),
{
    if s.len() == 0 {
        seq![]
    } else if s.last() == 10u8 {
        newline_positions(s.drop_last()).push((s.len() - 1) as usize)
    } else {
        newline_positions(s.drop_last())
    }
}

/// How many entries of `p` are strictly below `offset`.
pub open spec fn count_below(p: Seq<usize>, offset: usize) -> nat
    decreases p.len(),
{
    if p.len() == 0 {
        0
    } else {
        count_below(p.drop_last(), offset) + if p.last() < offset {
            1nat
        } else {
            0nat
        }
    }
}

/// Whether `p` is strictly increasing.
pub open spec fn strictly_increasing(p: Seq<usize>) -> bool {
    forall|i: int, j: int| 0 <= i < j < p.len() ==> p[i] < p[j]
}

proof fn lemma_count_below_split(p: Seq<usize>, offset: usize, k: int)
    requires
        0 <= k <= p.len(),
        forall|i: int| 0 <= i < k ==> p[i] < offset,
        forall|i: int| k <= i < p.len() ==> p[i] >= offset,
    ensures
        count_below(p, offset) == k,
    decreases p.len(),
{
    if p.len() > 0 {
        if k == p.len() {
            lemma_count_below_split(p.drop_last(), offset, k - 1);
        } else {
            lemma_count_below_split(p.drop_last(), offset, k);
        }
    }
}

/// Convert a byte offset to a 1-based line number using pre-computed newline
/// positions: one more than the number of newlines strictly before the offset
/// (a newline belongs to the line it ends).
pub fn byte_offset_to_line(newline_positions: &[usize], byte_offset: usize) -> (r: usize)
    requires
        newline_positions@.len() < usize::MAX,
    ensures
        1 <= r <= newline_positions@.len() + 1,
        strictly_increasing(newline_positions@) ==> r == 1 + count_below(
            newline_positions@,
            byte_offset,
        ),
{
    let mut lo: usize = 0;
    let mut hi: usize = newline_positions.len();
    while lo < hi
        invariant
            lo <= hi <= newline_positions@.len(),
            strictly_increasing(newline_positions@) ==> forall|i: int|
                0 <= i < lo ==> newline_positions@[i] < byte_offset,
            strictly_increasing(newline_positions@) ==> forall|i: int|
                hi <= i < newline_positions@.len() ==> newline_positions@[i] >= byte_offset,
        decreases hi - lo,
    {
        let mid = lo + (hi - lo) / 2;
        if newline_positions[mid] < byte_offset {
            lo = mid + 1;
        } else {
            hi = mid;
        }
    }
    proof {
        if strictly_increasing(newline_positions@) {
            lemma_count_below_split(newline_positions@, byte_offset, lo as int);
        }
    }
    lo + 1
}

/// Compute the byte positions of all newline characters in `source`.
pub fn compute_newline_positions(source: &[u8]) -> (r: Vec<usize>)
    ensures
        r@ == newline_positions(source@),
{
    let mut r: Vec<usize> = Vec::new();
    let mut i: usize = 0;
    while i < source.len()
        invariant
            i <= source.len(),
            r@ == newline_positions(source@.take(i as int)),
        decreases source.len() - i,
    {
        proof {
            assert(source@.take(i + 1).drop_last() =~= source@.take(i as int));
        }
        if source[i] == 10u8 {
            r.push(i);
        }
        i = i + 1;
    }
    assert(source@.take(i as int) =~= source@);
    r
}

/// The newline table of `s` is strictly increasing and points at newlines
/// inside `s`.
pub proof fn lemma_newline_positions_sorted(s: Seq<u8>)
    requires
        s.len() <= usize::MAX,
    ensures
        strictly_increasing(newline_positions(s)),
        forall|i: int|
            0 <= i < newline_positions(s).len() ==> newline_positions(s)[i] < s.len() && s[(
            #[trigger] newline_positions(s)[i]) as int] == 10u8,
        newline_positions(s).len() <= s.len(),
    decreases s.len(),
{
    if s.len() > 0 {
        let q = newline_positions(s.drop_last());
        lemma_newline_positions_sorted(s.drop_last());
        if s.last() == 10u8 {
            let p = q.push((s.len() - 1) as usize);
            assert(newline_positions(s) == p);
            assert forall|i: int, j: int| 0 <= i < j < p.len() implies p[i] < p[j] by {
                if j == p.len() - 1 {
                    assert(p[i] == q[i]);
                }
            }
            assert forall|i: int| 0 <= i < p.len() implies p[i] < s.len() && s[(
            #[trigger] p[i]) as int] == 10u8 by {
                if i < q.len() {
                    assert(p[i] == q[i]);
                    assert(s[q[i] as int] == s.drop_last()[q[i] as int]);
                }
            }
        } else {
            assert forall|i: int|
                0 <= i < newline_positions(s).len() implies newline_positions(s)[i] < s.len()
                && s[(#[trigger] newline_positions(s)[i]) as int] == 10u8 by {
                assert(s[q[i] as int] == s.drop_last()[q[i] as int]);
            }
        }
    }
}

/// The newline table of a prefix counts the table's entries below the prefix's length.
proof fn lemma_newline_positions_prefix(s: Seq<u8>, k: usize)
    requires
        k <= s.len() <= usize::MAX,
    ensures
        count_below(newline_positions(s), k) == newline_positions(s.take(k as int)).len(),
    decreases s.len(),
{
    lemma_newline_positions_sorted(s);
    if k == s.len() {
        assert(s.take(k as int) =~= s);
        lemma_count_below_split(newline_positions(s), k, newline_positions(s).len() as int);
    } else {
        lemma_newline_positions_prefix(s.drop_last(), k);
        assert(s.drop_last().take(k as int) =~= s.take(k as int));
        let q = newline_positions(s.drop_last());
        if s.last() == 10u8 {
            let p = q.push((s.len() - 1) as usize);
            assert(newline_positions(s) == p);
            assert(p.drop_last() =~= q);
        }
    }
}

/// Line numbers computed from a source's newline table count the newlines
/// before the offset: line(offset) = 1 + number of `\n` bytes in
/// `source[..offset]` (offsets past the end count all newlines).
pub proof fn lemma_line_counts_newlines_before(source: Seq<u8>, offset: usize)
    requires
        source.len() <= usize::MAX,
    ensures
        count_below(newline_positions(source), offset) == newline_positions(
            source.take(
                if offset <= source.len() {
                    offset as int
                } else {
                    source.len() as int
                },
            ),
        ).len(),
{
    if offset <= source.len() {
        lemma_newline_positions_prefix(source, offset);
    } else {
        lemma_newline_positions_sorted(source);
        lemma_count_below_split(
            newline_positions(source),
            offset,
            newline_positions(source).len() as int,
        );
        assert(source.take(source.len() as int) =~= source);
    }
}

/// The call in an optional receiver, if the receiver is a call.
pub open spec fn as_call(recv: Option<Box<SyntaxNode>>) -> Option<CallNode> {
    match recv {
        Some(b) => match *b {
            SyntaxNode::Call(c) => Some(c),
            _ => None,
        },
        None => None,
    }
}

/// Whether an optional receiver is a call with the given method name.
pub open spec fn spec_receiver_is_call_with_name(recv: Option<Box<SyntaxNode>>, name: Seq<u8>) -> bool {
    match as_call(recv) {
        Some(c) => c.name@ == name,
        None => false,
    }
}

/// Check if a receiver is a call with the given method name.
pub fn receiver_is_call_with_name(recv: &Option<Box<SyntaxNode>>, name: &[u8]) -> (r: bool)
    ensures
        r == spec_receiver_is_call_with_name(*recv, name@),
{
    match recv {
        Some(b) => match &**b {
            SyntaxNode::Call(c) => bytes_eq(c.name.as_slice(), name),
            _ => false,
        },
        None => false,
    }
}

/// Extract the call from a receiver, if it is one.
pub fn receiver_as_call(recv: &Option<Box<SyntaxNode>>) -> (r: Option<&CallNode>)
    ensures
        match r {
            Some(c) => as_call(*recv) == Some(*c),
            None => as_call(*recv) is None,
        },
{
    match recv {
        Some(b) => match &**b {
            SyntaxNode::Call(c) => Some(c),
            _ => None,
        },
        None => None,
    }
}

/// Whether the call's block slot holds a block argument (`&blk`, `&:sym`).
pub open spec fn spec_has_block_pass(call: CallNode) -> bool {
    match call.block {
        Some(b) => *b is BlockArgument,
        None => false,
    }
}

/// Whether the call's block slot holds a literal block.
pub open spec fn spec_has_full_block(call: CallNode) -> bool {
    match call.block {
        Some(b) => *b is Block,
        None => false,
    }
}

/// Check if a call passes a block argument.
pub fn has_block_pass(call: &CallNode) -> (r: bool)
    ensures
        r == spec_has_block_pass(*call),
{
    match &call.block {
        Some(b) => match &**b {
            SyntaxNode::BlockArgument { .. } => true,
            _ => false,
        },
        None => false,
    }
}

/// Check if a call has a literal block (not just a block argument).
pub fn has_full_block(call: &CallNode) -> (r: bool)
    ensures
        r == spec_has_full_block(*call),
{
    match &call.block {
        Some(b) => match &**b {
            SyntaxNode::Block(_) => true,
            _ => false,
        },
        None => false,
    }
}

/// The number of arguments of a call (a block argument is not counted).
pub fn arg_count(call: &CallNode) -> (r: usize)
    ensures
        r == call.arguments@.len(),
{
    call.arguments.len()
}

/// The first argument of a call.
pub fn first_call_arg(call: &CallNode) -> (r: Option<&SyntaxNode>)
    ensures
        match r {
            Some(n) => call.arguments@.len() > 0 && *n == call.arguments@[0],
            None => call.arguments@.len() == 0,
        },
{
    if call.arguments.len() > 0 {
        Some(&call.arguments[0])
    } else {
        None
    }
}

/// The two arguments of a call that has exactly two.
pub fn call_args_pair(call: &CallNode) -> (r: Option<(&SyntaxNode, &SyntaxNode)>)
    ensures
        match r {
            Some((a, b)) => call.arguments@.len() == 2 && *a == call.arguments@[0] && *b
                == call.arguments@[1],
            None => call.arguments@.len() != 2,
        },
{
    if call.arguments.len() == 2 {
        Some((&call.arguments[0], &call.arguments[1]))
    } else {
        None
    }
}

/// Whether a node is a string literal of exactly one byte.
pub open spec fn spec_is_single_char_string(node: SyntaxNode) -> bool {
    match node {
        SyntaxNode::String { unescaped } => unescaped@.len() == 1,
        _ => false,
    }
}

/// Check if a node is a single-character string literal.
pub fn is_single_char_string(node: &SyntaxNode) -> (r: bool)
    ensures
        r == spec_is_single_char_string(*node),
{
    match node {
        SyntaxNode::String { unescaped } => unescaped.len() == 1,
        _ => false,
    }
}

/// The single expression of a body: the one statement of a statement list
/// of length one, or the body itself when it is not a statement list.
pub open spec fn single_expression(body: Option<SyntaxNode>) -> Option<SyntaxNode> {
    match body {
        None => None,
        Some(n) => match n {
            SyntaxNode::Statements { body: stmts } => if stmts@.len() == 1 {
                Some(stmts@[0])
            } else {
                None
            },
            _ => Some(n),
        },
    }
}

/// Get the single expression of a body, if the body has exactly one.
pub fn body_single_expression(body: Option<&SyntaxNode>) -> (r: Option<&SyntaxNode>)
    ensures
        match r {
            Some(n) => single_expression(match body {
                Some(b) => Some(*b),
                None => None,
            }) == Some(*n),
            None => single_expression(match body {
                Some(b) => Some(*b),
                None => None,
            }) is None,
        },
{
    match body {
        None => None,
        Some(n) => match n {
            SyntaxNode::Statements { body: stmts } => {
                if stmts.len() == 1 {
                    Some(&stmts[0])
                } else {
                    None
                }
            },
            _ => Some(n),
        },
    }
}

/// The number of top-level expressions of an optional body.
pub open spec fn spec_body_expression_count(body: Option<Box<SyntaxNode>>) -> nat {
    match body {
        None => 0,
        Some(b) => match *b {
            SyntaxNode::Statements { body: stmts } => stmts@.len(),
            _ => 1,
        },
    }
}

/// Count the top-level expressions of a body.
pub fn body_expression_count(body: &Option<Box<SyntaxNode>>) -> (r: usize)
    ensures
        r == spec_body_expression_count(*body),
{
    match body {
        None => 0,
        Some(b) => match &**b {
            SyntaxNode::Statements { body: stmts } => stmts.len(),
            _ => 1,
        },
    }
}

/// Whether a receiver is a range, bare or in parentheses (`(1..10)`).
pub open spec fn spec_receiver_is_range(recv: Option<Box<SyntaxNode>>) -> bool {
    match recv {
        None => false,
        Some(b) => match *b {
            SyntaxNode::Range { .. } => true,
            SyntaxNode::Parentheses { body } => match body {
                Some(inner) => match single_expression(Some(*inner)) {
                    Some(e) => e is Range,
                    None => false,
                },
                None => false,
            },
            _ => false,
        },
    }
}

/// Check if the receiver is a range.
pub fn receiver_is_range(recv: &Option<Box<SyntaxNode>>) -> (r: bool)
    ensures
        r == spec_receiver_is_range(*recv),
{
    match recv {
        None => false,
        Some(b) => match &**b {
            SyntaxNode::Range { .. } => true,
            SyntaxNode::Parentheses { body } => match body {
                Some(inner) => match body_single_expression(Some(&**inner)) {
                    Some(e) => match e {
                        SyntaxNode::Range { .. } => true,
                        _ => false,
                    },
                    None => false,
                },
                None => false,
            },
            _ => false,
        },
    }
}

/// Whether a node is a literal (not a variable reference or a call).
pub open spec fn spec_is_primitive(node: SyntaxNode) -> bool {
    match node {
        SyntaxNode::Integer { .. } => true,
        SyntaxNode::String { .. } => true,
        SyntaxNode::Array { .. } => true,
        SyntaxNode::Hash { .. } => true,
        SyntaxNode::Range { .. } => true,
        SyntaxNode::Leaf(k) => !(k is Other),
        _ => false,
    }
}

/// Check if a node is a literal.
pub fn is_primitive(node: &SyntaxNode) -> (r: bool)
    ensures
        r == spec_is_primitive(*node),
{
    match node {
        SyntaxNode::Integer { .. } => true,
        SyntaxNode::String { .. } => true,
        SyntaxNode::Array { .. } => true,
        SyntaxNode::Hash { .. } => true,
        SyntaxNode::Range { .. } => true,
        SyntaxNode::Leaf(k) => match k {
            crate::ast::LeafKind::Other => false,
            _ => true,
        },
        _ => false,
    }
}

/// Whether the first argument of a call is a hash (braced or keyword) with
/// exactly one element.
pub open spec fn spec_first_arg_is_single_pair_hash(call: CallNode) -> bool {
    call.arguments@.len() > 0 && match call.arguments@[0] {
        SyntaxNode::Hash { elements } => elements@.len() == 1,
        SyntaxNode::KeywordHash { elements } => elements@.len() == 1,
        _ => false,
    }
}

/// Check if the first argument of a call is a one-pair hash
/// (`h.merge!(a: 1)` or `h.merge!({a: 1})`).
pub fn first_arg_is_single_pair_hash(call: &CallNode) -> (r: bool)
    ensures
        r == spec_first_arg_is_single_pair_hash(*call),
{
    match first_call_arg(call) {
        Some(node) => match node {
            SyntaxNode::Hash { elements } => elements.len() == 1,
            SyntaxNode::KeywordHash { elements } => elements.len() == 1,
            _ => false,
        },
        None => false,
    }
}

/// The spellings of the integer one in any base.
pub open spec fn is_one_literal(text: Seq<u8>) -> bool {
    ||| text == "1".spec_bytes()
    ||| text == "0x1".spec_bytes()
    ||| text == "0X1".spec_bytes()
    ||| text == "0b1".spec_bytes()
    ||| text == "0B1".spec_bytes()
    ||| text == "0o1".spec_bytes()
    ||| text == "0O1".spec_bytes()
}

/// Whether a node is the integer literal one.
pub open spec fn spec_is_int_one(node: SyntaxNode) -> bool {
    match node {
        SyntaxNode::Integer { text } => is_one_literal(text@),
        _ => false,
    }
}

/// Check if a node is an integer literal with value 1.
pub fn is_int_one(node: &SyntaxNode) -> (r: bool)
    ensures
        r == spec_is_int_one(*node),
{
    match node {
        SyntaxNode::Integer { text } => {
            let t = text.as_slice();
            bytes_eq_str(t, "1") || bytes_eq_str(t, "0x1") || bytes_eq_str(t, "0X1")
                || bytes_eq_str(t, "0b1") || bytes_eq_str(t, "0B1") || bytes_eq_str(t, "0o1")
                || bytes_eq_str(t, "0O1")
        },
        _ => false,
    }
}

/// The names of the required parameters that are plain names, decoded.
pub open spec fn required_names(reqs: Seq<SyntaxNode>) -> Seq<Seq<char>>
    decreases reqs.len(),
{
    if reqs.len() == 0 {
        seq![]
    } else {
        let rest = required_names(reqs.drop_last());
        match reqs.last() {
            SyntaxNode::RequiredParameter { name } => rest.push(utf8_lossy(name@)),
            _ => rest,
        }
    }
}

/// The parameter names a block declares: its plain required parameters.
pub open spec fn spec_block_arg_names(params: Option<Box<SyntaxNode>>) -> Seq<Seq<char>> {
    match params {
        Some(b) => match *b {
            SyntaxNode::BlockParameters { parameters } => match parameters {
                Some(p) => required_names(p.requireds@),
                None => seq![],
            },
            _ => seq![],
        },
        None => seq![],
    }
}

/// The views of a list of strings.
pub open spec fn string_views(v: Seq<String>) -> Seq<Seq<char>> {
    v.map_values(|s: String| s@)
}

fn required_names_of(p: &ParametersNode) -> (r: Vec<String>)
    ensures
        string_views(r@) == required_names(p.requireds@),
{
    let mut r: Vec<String> = Vec::new();
    let mut i: usize = 0;
    while i < p.requireds.len()
        invariant
            i <= p.requireds.len(),
            string_views(r@) == required_names(p.requireds@.take(i as int)),
        decreases p.requireds.len() - i,
    {
        assert(p.requireds@.take(i + 1).drop_last() =~= p.requireds@.take(i as int));
        match &p.requireds[i] {
            SyntaxNode::RequiredParameter { name } => {
                let ghost prev = r@;
                let s = lossy_string(name.as_slice());
                r.push(s);
                assert(string_views(r@) =~= string_views(prev).push(s@));
            },
            _ => {},
        }
        i = i + 1;
    }
    assert(p.requireds@.take(i as int) =~= p.requireds@);
    r
}

/// Get the names of a block's plain required parameters (none for numbered
/// or `it` parameters).
pub fn block_arg_names(params: &Option<Box<SyntaxNode>>) -> (r: Vec<String>)
    ensures
        string_views(r@) == spec_block_arg_names(*params),
{
    match params {
        Some(b) => match &**b {
            SyntaxNode::BlockParameters { parameters } => match parameters {
                Some(p) => required_names_of(p),
                None => {
                    let r: Vec<String> = Vec::new();
                    assert(string_views(r@) =~= Seq::<Seq<char>>::empty());
                    r
                },
            },
            _ => {
                let r: Vec<String> = Vec::new();
                assert(string_views(r@) =~= Seq::<Seq<char>>::empty());
                r
            },
        },
        None => {
            let r: Vec<String> = Vec::new();
            assert(string_views(r@) =~= Seq::<Seq<char>>::empty());
            r
        },
    }
}

/// The parameter list of a method definition, if it declares one.
pub open spec fn def_params(def: DefNode) -> Option<ParametersNode> {
    match def.parameters {
        Some(b) => match *b {
            SyntaxNode::Parameters(p) => Some(p),
            _ => None,
        },
        None => None,
    }
}

fn def_params_of(def: &DefNode) -> (r: Option<&ParametersNode>)
    ensures
        match r {
            Some(p) => def_params(*def) == Some(*p),
            None => def_params(*def) is None,
        },
{
    match &def.parameters {
        Some(b) => match &**b {
            SyntaxNode::Parameters(p) => Some(p),
            _ => None,
        },
        None => None,
    }
}

/// The decoded name of a method's `&block` parameter, if it has a named one.
pub open spec fn spec_def_block_arg_name(def: DefNode) -> Option<Seq<char>> {
    match def_params(def) {
        Some(p) => match p.block {
            Some(bp) => match bp.name {
                Some(n) => Some(utf8_lossy(n@)),
                None => None,
            },
            None => None,
        },
        None => None,
    }
}

/// Get the name of a method's block parameter (`&block`).
pub fn def_block_arg_name(def: &DefNode) -> (r: Option<String>)
    ensures
        match r {
            Some(s) => spec_def_block_arg_name(*def) == Some(s@),
            None => spec_def_block_arg_name(*def) is None,
        },
{
    match def_params_of(def) {
        Some(p) => match &p.block {
            Some(bp) => match &bp.name {
                Some(n) => Some(lossy_string(n.as_slice())),
                None => None,
            },
            None => None,
        },
        None => None,
    }
}

/// The number of required parameters of a method.
pub open spec fn spec_def_regular_arg_count(def: DefNode) -> nat {
    match def_params(def) {
        Some(p) => p.requireds@.len(),
        None => 0,
    }
}

/// Count the required parameters of a method.
pub fn def_regular_arg_count(def: &DefNode) -> (r: usize)
    ensures
        r == spec_def_regular_arg_count(*def),
{
    match def_params_of(def) {
        Some(p) => p.requireds.len(),
        None => 0,
    }
}

/// The decoded name of a method's first required parameter, when that
/// parameter is a plain name.
pub open spec fn spec_def_first_arg_name(def: DefNode) -> Option<Seq<char>> {
    match def_params(def) {
        Some(p) => if p.requireds@.len() > 0 {
            match p.requireds@[0] {
                SyntaxNode::RequiredParameter { name } => Some(utf8_lossy(name@)),
                _ => None,
            }
        } else {
            None
        },
        None => None,
    }
}

/// Get the name of a method's first required parameter.
pub fn def_first_arg_name(def: &DefNode) -> (r: Option<String>)
    ensures
        match r {
            Some(s) => spec_def_first_arg_name(*def) == Some(s@),
            None => spec_def_first_arg_name(*def) is None,
        },
{
    match def_params_of(def) {
        Some(p) => {
            if p.requireds.len() > 0 {
                match &p.requireds[0] {
                    SyntaxNode::RequiredParameter { name } => Some(lossy_string(name.as_slice())),
                    _ => None,
                }
            } else {
                None
            }
        },
        None => None,
    }
}

/// Whether a decoded string literal contains `def`.
pub open spec fn string_part_contains_def(node: SyntaxNode) -> bool {
    match node {
        SyntaxNode::String { unescaped } => contains_run(utf8_lossy(unescaped@), "def"@),
        _ => false,
    }
}

/// Whether a node is a string literal, or an interpolated string with a
/// literal part, whose text contains `def`.
pub open spec fn spec_str_contains_def(node: SyntaxNode) -> bool {
    match node {
        SyntaxNode::String { .. } => string_part_contains_def(node),
        SyntaxNode::InterpolatedString { parts } => exists|i: int|
            0 <= i < parts@.len() && string_part_contains_def(#[trigger] parts@[i]),
        _ => false,
    }
}

fn part_contains_def(node: &SyntaxNode) -> (r: bool)
    ensures
        r == string_part_contains_def(*node),
{
    match node {
        SyntaxNode::String { unescaped } => {
            let s = lossy_string(unescaped.as_slice());
            str_contains(s.as_str(), "def")
        },
        _ => false,
    }
}

/// Check if a string literal contains `def`.
pub fn str_contains_def(node: &SyntaxNode) -> (r: bool)
    ensures
        r == spec_str_contains_def(*node),
{
    match node {
        SyntaxNode::String { .. } => part_contains_def(node),
        SyntaxNode::InterpolatedString { parts } => {
            let mut i: usize = 0;
            while i < parts.len()
                invariant
                    i <= parts.len(),
                    *node matches SyntaxNode::InterpolatedString { parts: ps } && ps@ == parts@,
                    forall|j: int| 0 <= j < i ==> !string_part_contains_def(#[trigger] parts@[j]),
                decreases parts.len() - i,
            {
                if part_contains_def(&parts[i]) {
                    assert(string_part_contains_def(parts@[i as int]));
                    return true;
                }
                i = i + 1;
            }
            false
        },
        _ => false,
    }
}

} // verus!
