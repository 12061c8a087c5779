//! The parse substrate: a concrete syntax tree for Java source text, and
//! pattern queries over it, provided by the `tree_sitter` crate. Verified
//! code sees the tree only through `run_query`, which hands back plain
//! capture data (text, node kind, byte range) for every match.

use vstd::prelude::*;

verus! {

#[verifier::external_type_specification]
#[verifier::external_body]
pub struct ExTree(tree_sitter::Tree);

/// One captured node of a query match, reduced to plain values.
pub struct RawCapture {
    /// The capture's position in the query pattern (0 for the first `@` name).
    pub index: usize,
    /// The captured node's source text.
    pub text: String,
    /// The captured node's grammar kind, e.g. `generic_type`.
    pub kind: String,
    /// Byte offset where the node starts in the source text.
    pub start: usize,
    /// Byte offset just past the node's end.
    pub end: usize,
}

/// One match of a query pattern: its captures, in the order reported.
pub struct RawMatch {
    pub caps: Vec<RawCapture>,
}

/// A source file's text together with its concrete syntax tree. The fields
/// are private: every value pairs a text with the tree parsed from exactly
/// that text, so a query's result is a function of the text alone.
pub struct SourceTree {
    text: String,
    tree: tree_sitter::Tree,
}

impl SourceTree {
    /// The text this tree was parsed from.
    pub closed spec fn text_view(&self) -> Seq<char> {
        self.text@
    }
}

/// The matches that the Java grammar's query engine reports for `pattern`
/// over the tree of `text`. Parsing and matching are deterministic, so the
/// result is a function of the two texts alone; nothing further is assumed
/// about its value.
pub uninterp spec fn query_hits(text: Seq<char>, pattern: Seq<char>) -> Seq<RawMatch>;

/// The query patterns the extractor runs. Each is a pattern the Java
/// grammar's query parser accepts: the named node kinds and fields all
/// exist in the grammar, so `Query::new` cannot reject them.
pub open spec fn known_pattern(p: Seq<char>) -> bool {
    ||| p == "((package_declaration (scoped_identifier) @package))"@
    ||| p == "((import_declaration) @import)"@
    ||| p == "((class_declaration name: (_) @class))"@
    ||| p
        == "((class_declaration (modifiers (annotation name: (identifier) @name arguments: (annotation_argument_list) @args))))"@
    ||| p == "((element_value_array_initializer (field_access) @subclass))"@
    ||| p == "((element_value_array_initializer (class_literal) @subclass))"@
    ||| p == "(program (class_declaration body: (class_body (field_declaration) @field)))"@
    ||| p
        == "((field_declaration type: (_) @imp declarator: (variable_declarator name: (_) @dec)))"@
    ||| p == "((field_declaration (modifiers (annotation name: (_) @ann arguments: (_) @arg))))"@
    ||| p == "((element_value_pair key: (_) @key value: (_) @value))"@
    ||| p == "(program (class_declaration body: (class_body (class_declaration) @inner_class)))"@
    ||| p == "((class_declaration body: (class_body (field_declaration) @field)))"@
    ||| p == "((class_declaration (modifiers) @modifiers))"@
    ||| p == "((class_declaration superclass: (superclass (type_identifier) @type)))"@
    ||| p == "((enum_declaration name: (_) @enum))"@
    ||| p == "((enum_constant name: (_) @const))"@
    ||| p == "((interface_declaration name: (_) @interface))"@
    ||| p == "((method_declaration type: (_) @type name: (_) @name parameters: (_) @pars))"@
    ||| p == "((formal_parameter (modifiers) @anno type: (_) @type name: (_) @name))"@
}

/// Relies on `tree_sitter::Parser::parse` with the Java grammar of
/// `tree_sitter_java`: the returned tree belongs to exactly the given
/// text, which is kept beside it. `parse` returns nothing only without a
/// language, on a timeout or on cancellation, and `set_language` fails
/// only on an incompatible grammar version; none of these can happen here,
/// so a tree always comes back.
#[verifier::external_body]
pub fn parse_source(text: &str) -> (r: SourceTree)
    ensures
        r.text_view() == text@,
{
    let mut parser = tree_sitter::Parser::new();
    parser.set_language(tree_sitter_java::language()).unwrap();
    let tree = parser.parse(text, None).unwrap();
    SourceTree { text: text.to_string(), tree }
}

/// Relies on `tree_sitter::Query::new` and `tree_sitter::QueryCursor::matches`:
/// for a fixed grammar, the sequence of matches and each capture's index,
/// source text, node kind and byte range are determined by the source text
/// and the pattern. `Query::new` fails only on a pattern the query parser
/// rejects, which the accepted patterns are not.
#[verifier::external_body]
pub fn run_query(tree: &SourceTree, pattern: &str) -> (r: Vec<RawMatch>)
    requires
        known_pattern(pattern@),
    ensures
        r@ == query_hits(tree.text_view(), pattern@),
{
    let query = tree_sitter::Query::new(tree_sitter_java::language(), pattern).unwrap();
    let bytes = tree.text.as_bytes();
    let mut cursor = tree_sitter::QueryCursor::new();
    cursor.matches(&query, tree.tree.root_node(), bytes).map(|m| RawMatch {
        caps: m.captures.iter().map(|c| RawCapture {
            index: c.index as usize,
            text: c.node.utf8_text(bytes).unwrap_or("").to_string(),
            kind: c.node.kind().to_string(),
            start: c.node.start_byte(),
            end: c.node.end_byte(),
        }).collect(),
    }).collect()
}

/// The first capture of `m` whose pattern position is `idx`, if any.
pub open spec fn spec_cap_at(caps: Seq<RawCapture>, idx: usize) -> Option<RawCapture>
    decreases caps.len(),
{
    if caps.len() == 0 {
        None
    } else if caps[0].index == idx {
        Some(caps[0])
    } else {
        spec_cap_at(caps.skip(1), idx)
    }
}

/// Looks up the capture at pattern position `idx` in a match.
pub fn cap_at(m: &RawMatch, idx: usize) -> (r: Option<&RawCapture>)
    ensures
        match r {
            Some(c) => spec_cap_at(m.caps@, idx) == Some(*c),
            None => spec_cap_at(m.caps@, idx) is None,
        },
{
    let n = m.caps.len();
    proof {
        assert(m.caps@.skip(0) =~= m.caps@);
    }
    let mut i: usize = 0;
    while i < n
        invariant
            i <= n,
            n == m.caps@.len(),
            spec_cap_at(m.caps@, idx) == spec_cap_at(m.caps@.skip(i as int), idx),
        decreases n - i,
    {
        proof {
            assert(m.caps@.skip(i as int)[0] == m.caps@[i as int]);
            assert(m.caps@.skip(i as int).skip(1) =~= m.caps@.skip(i as int + 1));
        }
        if m.caps[i].index == idx {
            return Some(&m.caps[i]);
        }
        i = i + 1;
    }
    proof {
        assert(m.caps@.skip(n as int) =~= Seq::<RawCapture>::empty());
    }
    None
}

} // verus!
