use regexp::graph::MathGraph;
use regexp::parse;
use regexp::RegExpNode;
use regexp::Regexp;
use regexp::RegexpSymbol;
use regexp::RexExpEdge;

#[test]
fn test() {
    assert_eq!(
        Regexp::new(r"le\.peke").match_regexp("le.peke.la.peke le peke"),
        true
    );

    assert_eq!(
        Regexp::new(r"le peke").match_regexp("le.peke.la.peke le peke"),
        true
    );

    assert_eq!(Regexp::new("abcde").match_regexp("123abcd123abcde"), true);

    assert_eq!(Regexp::new("a.c").match_regexp("123abc123"), true);

    assert_eq!(
        Regexp::new("le peke").match_regexp("le.peke.la.peke le-peke"),
        false
    );

    assert_eq!(
        Regexp::new("le.peke").match_regexp("le.peke.la.peke le-peke"),
        true
    );
}

#[test]
fn empty_pattern_start_is_accept_and_matches_everything() {
    let compiled = Regexp::new("");
    assert_eq!(compiled.start_node, compiled.end_node);
    assert_eq!(compiled.graph.nodes.len(), 1);
    assert_eq!(compiled.graph.edges.len(), 0);
    assert!(compiled.match_regexp(""));
    assert!(compiled.match_regexp("anything"));
    assert!(compiled.match_regexp("\n"));
}

#[test]
fn escape_literalizes_metacharacters() {
    assert_eq!(Regexp::new("a\\.c").match_regexp("xa.cx"), true);
    assert_eq!(Regexp::new("a\\.c").match_regexp("xabcx"), false);
}

#[test]
fn escaped_backslash_is_a_literal_backslash() {
    assert_eq!(Regexp::new("a\\\\b").match_regexp("xa\\bx"), true);
    assert_eq!(Regexp::new("a\\\\b").match_regexp("xa.bx"), false);
}

#[test]
fn wildcard_matches_any_non_newline_character() {
    assert_eq!(Regexp::new("a.c").match_regexp("123abc123"), true);
    assert_eq!(Regexp::new("a.c").match_regexp("123a\nc123"), false);
}

#[test]
fn literal_newline_in_pattern_matches_newline() {
    assert_eq!(Regexp::new("a\nc").match_regexp("xa\ncx"), true);
    assert_eq!(Regexp::new(".").match_regexp("\n"), false);
}

#[test]
fn literal_contiguous_run_required() {
    assert_eq!(Regexp::new("abcde").match_regexp("123abcd123abcde"), true);
    assert_eq!(Regexp::new("abcde").match_regexp("abcd1e"), false);
}

#[test]
fn walk_resets_without_rereading_the_mismatched_character() {
    // The matcher consumes the mismatched character while resetting, so an
    // occurrence that starts inside an earlier partial match is not found.
    assert_eq!(Regexp::new("aab").match_regexp("aaab"), false);
    assert_eq!(Regexp::new("aab").match_regexp("xaab"), true);
}

#[test]
fn nonempty_pattern_rejects_empty_text() {
    assert_eq!(Regexp::new("a").match_regexp(""), false);
}

#[test]
fn trailing_unmatched_escape_is_dropped() {
    assert_eq!(parse("ab\\"), parse("ab"));
    assert_eq!(Regexp::new("ab\\").match_regexp("xaby"), true);
    assert_eq!(Regexp::new("ab\\").match_regexp("ab"), true);
    assert_eq!(Regexp::new("ab\\").match_regexp("a"), false);
    assert_eq!(
        Regexp::new("ab\\").match_regexp("xy"),
        Regexp::new("ab").match_regexp("xy")
    );
}

#[test]
fn parse_emits_one_symbol_per_effective_character() {
    let symbols = parse("a\\..");
    assert_eq!(
        symbols,
        vec![
            RegexpSymbol::Letter('a'),
            RegexpSymbol::Letter('.'),
            RegexpSymbol::Dot
        ]
    );
    assert_eq!(parse(""), vec![]);
    assert_eq!(parse("\\"), vec![]);
}

#[test]
fn determinism_and_idempotence() {
    let compiled = Regexp::new("a.c");
    let first = compiled.match_regexp("123abc123");
    let second = compiled.match_regexp("123abc123");
    assert_eq!(first, second);

    let again = Regexp::new("a.c");
    assert_eq!(compiled.graph.nodes.len(), again.graph.nodes.len());
    assert_eq!(compiled.graph.edges.len(), again.graph.edges.len());
    for text in ["123abc123", "123a\nc123", "", "ac", "a.c"] {
        assert_eq!(compiled.match_regexp(text), again.match_regexp(text));
    }
}

#[test]
fn automaton_is_a_chain_of_prefix_states() {
    let compiled = Regexp::new("a.b");
    assert_eq!(compiled.graph.nodes.len(), 4);
    assert_eq!(compiled.graph.edges.len(), 3);
    assert_eq!(compiled.start_node.id, 0);
    assert_eq!(compiled.end_node.id, 3);
    let edges = compiled.graph.get_edges();
    assert_eq!(edges[0].from.id, 0);
    assert_eq!(edges[0].to.id, 1);
    assert_eq!(edges[0].symbol, RegexpSymbol::Letter('a'));
    assert_eq!(edges[1].symbol, RegexpSymbol::Dot);
    assert_eq!(edges[2].symbol, RegexpSymbol::Letter('b'));
}

#[test]
fn graph_insertions_have_set_semantics() {
    let mut graph = MathGraph::new();
    let node = RegExpNode { id: 7 };
    graph.add_node(node);
    graph.add_node(node);
    assert_eq!(graph.nodes.len(), 1);

    let other = RegExpNode { id: 8 };
    graph.add_node(other);
    assert_eq!(graph.nodes.len(), 2);

    let edge = RexExpEdge {
        from: node,
        symbol: RegexpSymbol::Dot,
        to: other,
    };
    graph.add_edge(edge);
    graph.add_edge(edge);
    assert_eq!(graph.get_edges().len(), 1);
    assert_eq!(graph.get_edges()[0].from.id, 7);
}
