//! A tiny pattern-matching engine.
//!
//! A pattern is a string of literal characters, escapes (`\x` forces `x` to
//! be taken literally, even when `x` is `.` or `\`) and the wildcard `.`,
//! which matches any single character except newline. Compilation turns the
//! pattern into a chain automaton: one state per prefix of the compiled
//! symbol sequence, with a single symbol-labeled transition from each
//! prefix-state to the next. Matching walks an input text through that
//! automaton one character at a time, resetting to the start state on a
//! mismatch, and reports whether the walk ends in the accepting state.

use vstd::prelude::*;

pub mod graph;
pub mod laws;

verus! {

use crate::graph::MathGraph;

/// One compiled unit of pattern meaning: a literal character, which must
/// match exactly, or the wildcard, which matches any character but newline.
#[derive(Debug, PartialEq, Eq, Structural, Clone, Copy)]
pub enum RegexpSymbol {
    Letter(char),
    Dot,
}

/// A state of the compiled automaton, identified by a small integer index:
/// state `k` stands for "the first `k` symbols of the pattern have been
/// matched". Index `0` is the start state.
#[derive(Debug, PartialEq, Eq, Structural, Clone, Copy)]
pub struct RegExpNode {
    pub id: usize,
}

/// A directed, symbol-labeled transition between two automaton states.
#[derive(Debug, PartialEq, Eq, Structural, Clone, Copy)]
pub struct RexExpEdge {
    pub from: RegExpNode,
    pub symbol: RegexpSymbol,
    pub to: RegExpNode,
}

/// Whether one text character satisfies one compiled symbol.
pub open spec fn symbol_matches(sym: RegexpSymbol, c: char) -> bool {
    match sym {
        RegexpSymbol::Letter(l) => l == c,
        RegexpSymbol::Dot => c != '\n',
    }
}

/// The symbol an escaped pattern character compiles to: always the literal
/// for that character, whatever it is.
pub open spec fn escaped_symbol(c: char) -> RegexpSymbol {
    RegexpSymbol::Letter(c)
}

/// The symbol a plain (unescaped) pattern character compiles to: the
/// wildcard for `.`, the literal for anything else.
pub open spec fn plain_symbol(c: char) -> RegexpSymbol {
    if c == '.' {
        RegexpSymbol::Dot
    } else {
        RegexpSymbol::Letter(c)
    }
}

/// The symbol sequence that scanning `pattern` emits, starting with the
/// escape flag set to `escaped`. An escaped character is always emitted as a
/// literal; a plain `\` emits nothing and sets the flag; any other plain
/// character is emitted as [`plain_symbol`] says. A trailing unmatched
/// escape is silently dropped.
pub open spec fn scan(pattern: Seq<char>, escaped: bool) -> Seq<RegexpSymbol>
    decreases pattern.len(),
{
    if pattern.len() == 0 {
        Seq::empty()
    } else if escaped {
        seq![escaped_symbol(pattern[0])] + scan(pattern.drop_first(), false)
    } else if pattern[0] == '\\' {
        scan(pattern.drop_first(), true)
    } else {
        seq![plain_symbol(pattern[0])] + scan(pattern.drop_first(), false)
    }
}

/// The symbols a whole pattern compiles to.
pub open spec fn pattern_symbols(pattern: Seq<char>) -> Seq<RegexpSymbol> {
    scan(pattern, false)
}

/// Scan a pattern text left to right into its compiled symbols, keeping an
/// "escape pending" flag, as [`scan`] describes.
pub fn parse(input: &str) -> (r: Vec<RegexpSymbol>)
    ensures
        r@ == pattern_symbols(input@),
{
    let mut glyphs: Vec<RegexpSymbol> = Vec::new();

    let mut should_escape = false;
    let len: usize = input.unicode_len();
    let mut i: usize = 0;
    proof {
        assert(input@.subrange(0, len as int) =~= input@);
        assert(glyphs@ + pattern_symbols(input@) =~= pattern_symbols(input@));
    }
    while i < len
        invariant
            i <= len,
            len == input@.len(),
            pattern_symbols(input@) == glyphs@ + scan(
                input@.subrange(i as int, len as int),
                should_escape,
            ),
        decreases len - i,
    {
        let glyph = input.get_char(i);
        proof {
            let tail = input@.subrange(i as int, len as int);
            assert(tail[0] == input@[i as int]);
            assert(tail.drop_first() =~= input@.subrange(i + 1, len as int));
        }
        let ghost glyphs_before = glyphs@;
        let ghost flag_before = should_escape;
        if should_escape {
            should_escape = false;
            glyphs.push(RegexpSymbol::Letter(glyph));
        } else {
            if glyph == '\\' {
                should_escape = true;
            } else {
                if glyph == '.' {
                    glyphs.push(RegexpSymbol::Dot);
                } else {
                    glyphs.push(RegexpSymbol::Letter(glyph));
                }
            }
        }
        proof {
            let tail = input@.subrange(i as int, len as int);
            let next_tail = input@.subrange(i + 1, len as int);
            assert(glyphs_before + scan(tail, flag_before) == glyphs@ + scan(
                next_tail,
                should_escape,
            )) by {
                if flag_before || tail[0] != '\\' {
                    assert(glyphs@ =~= glyphs_before.push(glyphs@.last()));
                    assert(glyphs_before + scan(tail, flag_before) =~= glyphs@ + scan(
                        next_tail,
                        should_escape,
                    ));
                }
            }
        }
        i = i + 1;
    }
    proof {
        assert(input@.subrange(len as int, len as int) =~= Seq::<char>::empty());
        assert(glyphs@ + Seq::<RegexpSymbol>::empty() =~= glyphs@);
    }
    glyphs
}

/// The state the matcher's walk moves to from `state` on reading `c`: one
/// step forward when the state's outgoing symbol matches, back to the start
/// state when it does not, and unchanged when the state has no outgoing
/// transition (the accepting state of the chain).
pub open spec fn step(syms: Seq<RegexpSymbol>, state: int, c: char) -> int {
    if 0 <= state < syms.len() {
        if symbol_matches(syms[state], c) {
            state + 1
        } else {
            0
        }
    } else {
        state
    }
}

/// The state the walk ends in after consuming `text` from `state`, taking
/// one [`step`] per character.
pub open spec fn run(syms: Seq<RegexpSymbol>, state: int, text: Seq<char>) -> int
    decreases text.len(),
{
    if text.len() == 0 {
        state
    } else {
        run(syms, step(syms, state, text[0]), text.drop_first())
    }
}

/// Whether the walk over `text`, started in the start state, ends in the
/// accepting state of the chain automaton compiled from `syms`.
pub open spec fn accepts(syms: Seq<RegexpSymbol>, text: Seq<char>) -> bool {
    run(syms, 0, text) == syms.len()
}

/// Whether `pattern`, compiled to its symbols, accepts `text`.
pub open spec fn matches_pattern(pattern: Seq<char>, text: Seq<char>) -> bool {
    accepts(pattern_symbols(pattern), text)
}

/// A compiled pattern: the chain automaton, its start state (the empty
/// prefix) and its accepting state (the full pattern). The two are equal
/// exactly when the pattern compiled to no symbol.
pub struct Regexp {
    pub graph: MathGraph,
    pub start_node: RegExpNode,
    pub end_node: RegExpNode,
}

impl Regexp {
    /// The compiled symbols, read off the chain's transitions in order.
    pub open spec fn syms(self) -> Seq<RegexpSymbol> {
        self.graph.edges@.map(|k: int, e: RexExpEdge| e.symbol)
    }

    /// The chain shape: an automaton over `n` symbols has states `0 ..= n`,
    /// in order, and transition `k` leads from state `k` to state `k + 1`;
    /// the start state is `0` and the accepting state is `n`.
    pub open spec fn wf(self) -> bool {
        &&& self.graph.nodes@.len() == self.graph.edges@.len() + 1
        &&& forall|k: int|
            0 <= k < self.graph.nodes@.len() ==> (#[trigger] self.graph.nodes@[k]).id == k
        &&& forall|k: int|
            0 <= k < self.graph.edges@.len() ==> (#[trigger] self.graph.edges@[k]).from.id == k
                && self.graph.edges@[k].to.id == k + 1
        &&& self.start_node.id == 0
        &&& self.end_node.id == self.graph.edges@.len()
    }

    /// Compile a pattern: scan it into symbols, then build one new state and
    /// one transition per symbol, starting from the empty-prefix start
    /// state. Every input compiles; the empty pattern yields an automaton
    /// with one state, no transition, and `start_node == end_node`.
    pub fn new(input: &str) -> (r: Regexp)
        ensures
            r.wf(),
            r.syms() == pattern_symbols(input@),
    {
        let glyphs = parse(input);
        let mut graph = MathGraph::new();

        let start_node = RegExpNode { id: 0 };
        graph.add_node(start_node);

        let mut current_node = start_node;

        let mut k: usize = 0;
        while k < glyphs.len()
            invariant
                k <= glyphs@.len(),
                current_node.id == k,
                graph.nodes@.len() == k + 1,
                graph.edges@.len() == k,
                forall|j: int| 0 <= j < k + 1 ==> (#[trigger] graph.nodes@[j]).id == j,
                forall|j: int|
                    0 <= j < k ==> (#[trigger] graph.edges@[j]).from.id == j
                        && graph.edges@[j].to.id == j + 1 && graph.edges@[j].symbol == glyphs@[j],
            decreases glyphs@.len() - k,
        {
            let node = RegExpNode { id: k + 1 };
            proof {
                assert(forall|j: int| 0 <= j < graph.nodes@.len() ==> graph.nodes@[j] != node);
            }
            graph.add_node(node);

            let edge = RexExpEdge { from: current_node, symbol: glyphs[k], to: node };
            proof {
                assert(forall|j: int| 0 <= j < graph.edges@.len() ==> graph.edges@[j] != edge);
            }
            graph.add_edge(edge);

            current_node = node;
            k = k + 1;
        }
        let r = Regexp { graph, start_node, end_node: current_node };
        proof {
            assert(r.syms() =~= glyphs@);
        }
        r
    }

    /// Walk `input` through the automaton, one character per step, starting
    /// in the start state: on each character, the current state's single
    /// outgoing transition is followed when its symbol matches (a literal
    /// equal to the character, or the wildcard against anything but
    /// newline), the walk resets to the start state when it does not, and a
    /// state with no outgoing transition is left unchanged. Returns whether
    /// the walk ends in the accepting state.
    pub fn match_regexp(&self, input: &str) -> (r: bool)
        requires
            self.wf(),
        ensures
            r == accepts(self.syms(), input@),
    {
        let edges = self.graph.get_edges();
        let n: usize = edges.len();
        let mut current_state = self.start_node;
        let len: usize = input.unicode_len();
        let mut i: usize = 0;
        proof {
            assert(input@.subrange(0, len as int) =~= input@);
        }
        while i < len
            invariant
                i <= len,
                len == input@.len(),
                self.wf(),
                n == self.graph.edges@.len(),
                current_state.id <= n,
                run(self.syms(), 0, input@) == run(
                    self.syms(),
                    current_state.id as int,
                    input@.subrange(i as int, len as int),
                ),
            decreases len - i,
        {
            let character = input.get_char(i);
            proof {
                let tail = input@.subrange(i as int, len as int);
                assert(tail[0] == input@[i as int]);
                assert(tail.drop_first() =~= input@.subrange(i + 1, len as int));
                if current_state.id < n {
                    assert(self.syms()[current_state.id as int]
                        == self.graph.edges@[current_state.id as int].symbol);
                }
            }
            if current_state.id < self.graph.edges.len() {
                let edge = &self.graph.edges[current_state.id];
                if edge.symbol == RegexpSymbol::Letter(character) {
                    current_state = edge.to;
                } else if edge.symbol == RegexpSymbol::Dot && character != '\n' {
                    current_state = edge.to;
                } else {
                    current_state = self.start_node;
                }
            }
            i = i + 1;
        }
        proof {
            assert(input@.subrange(len as int, len as int) =~= Seq::<char>::empty());
        }
        current_state.id == self.end_node.id
    }
}

} // verus!
