//! General laws of the engine: properties that hold of every pattern and
//! every text, stated over the spec-level model and proved once for all.

use vstd::prelude::*;

verus! {

use crate::RegexpSymbol;
use crate::Regexp;
use crate::symbol_matches;
use crate::scan;
use crate::escaped_symbol;
use crate::plain_symbol;
use crate::pattern_symbols;
use crate::run;
use crate::accepts;
use crate::matches_pattern;

/// The empty pattern compiles to no symbol, and its automaton accepts every
/// text, the empty text included: the walk starts in the accepting state and
/// a state without an outgoing transition is never left.
pub proof fn lemma_empty_pattern_matches_all(text: Seq<char>)
    ensures
        matches_pattern(Seq::empty(), text),
{
    lemma_run_empty_syms(text);
}

proof fn lemma_run_empty_syms(text: Seq<char>)
    ensures
        run(Seq::<RegexpSymbol>::empty(), 0, text) == 0,
    decreases text.len(),
{
    if text.len() > 0 {
        lemma_run_empty_syms(text.drop_first());
    }
}

/// An escape literalizes the character it precedes: `\c` always compiles to
/// the literal symbol for `c`, even when `c` is a metacharacter such as `.`
/// or `\`, and the rest of the pattern compiles as before.
pub proof fn lemma_escape_literalizes(c: char, rest: Seq<char>)
    ensures
        pattern_symbols(seq!['\\', c] + rest) == seq![RegexpSymbol::Letter(c)] + pattern_symbols(
            rest,
        ),
{
    let p = seq!['\\', c] + rest;
    let q = seq![c] + rest;
    assert(p[0] == '\\');
    assert(p.drop_first() =~= q);
    assert(scan(p, false) == scan(q, true));
    assert(q[0] == c);
    assert(q.drop_first() =~= rest);
    assert(scan(q, true) == seq![escaped_symbol(c)] + scan(rest, false));
}

/// The wildcard symbol matches exactly the characters other than newline.
pub proof fn lemma_wildcard_excludes_newline(c: char)
    ensures
        symbol_matches(RegexpSymbol::Dot, c) <==> c != '\n',
{
}

/// Whether the compiled symbols match `text` pointwise starting at index
/// `i`: a contiguous occurrence of the full pattern.
pub open spec fn occurs_at(syms: Seq<RegexpSymbol>, text: Seq<char>, i: int) -> bool {
    &&& 0 <= i
    &&& i + syms.len() <= text.len()
    &&& forall|t: int| i <= t < i + syms.len() ==> symbol_matches(syms[t - i], #[trigger] text[t])
}

/// An occurrence in the tail of a text is an occurrence in the text, one
/// position later.
proof fn lemma_occurrence_shift(syms: Seq<RegexpSymbol>, text: Seq<char>, i: int)
    requires
        text.len() > 0,
        occurs_at(syms, text.drop_first(), i),
    ensures
        occurs_at(syms, text, i + 1),
{
    let rest = text.drop_first();
    assert forall|t: int| i + 1 <= t < i + 1 + syms.len() implies symbol_matches(
        syms[t - (i + 1)],
        #[trigger] text[t],
    ) by {
        assert(symbol_matches(syms[(t - 1) - i], rest[t - 1]));
        assert(rest[t - 1] == text[t]);
    }
}

/// A full contiguous run is required: whenever the automaton accepts a text,
/// the whole symbol sequence matches some contiguous stretch of that text.
/// (The converse does not hold: the walk resets to the start state on a
/// mismatch without re-reading the mismatched character, so an occurrence
/// can be missed; acceptance is only ever witnessed by an occurrence.)
pub proof fn lemma_accept_requires_contiguous_run(syms: Seq<RegexpSymbol>, text: Seq<char>)
    requires
        accepts(syms, text),
    ensures
        exists|i: int| occurs_at(syms, text, i),
{
    lemma_run_completion(syms, 0, text);
    if !(exists|i: int| occurs_at(syms, text, i)) {
        assert(occurs_at(syms, text, 0)) by {
            assert forall|t: int| 0 <= t < syms.len() implies symbol_matches(
                syms[t - 0],
                #[trigger] text[t],
            ) by {
                assert(symbol_matches(syms[0 + t], text[t]));
            }
        }
    }
}

/// From state `s`, the walk can only end in the accepting state `n` by
/// matching the remaining symbols `syms[s..]` against the very next
/// characters, or by passing through the start state again and then
/// witnessing a full occurrence further on.
proof fn lemma_run_completion(syms: Seq<RegexpSymbol>, s: int, text: Seq<char>)
    requires
        0 <= s <= syms.len(),
        run(syms, s, text) == syms.len(),
    ensures
        (exists|i: int| occurs_at(syms, text, i)) || (syms.len() - s <= text.len() && forall|
            j: int,
        |
            0 <= j < syms.len() - s ==> symbol_matches(syms[s + j], #[trigger] text[j])),
    decreases text.len(),
{
    let n = syms.len() as int;
    if text.len() == 0 {
        assert(s == n);
    } else if s == n {
        // the second disjunct is vacuous
    } else {
        let c = text[0];
        let rest = text.drop_first();
        if symbol_matches(syms[s], c) {
            assert(run(syms, s + 1, rest) == n);
            lemma_run_completion(syms, s + 1, rest);
            if exists|i: int| occurs_at(syms, rest, i) {
                let i = choose|i: int| occurs_at(syms, rest, i);
                lemma_occurrence_shift(syms, text, i);
                assert(occurs_at(syms, text, i + 1));
            } else {
                assert forall|j: int| 0 <= j < n - s implies symbol_matches(
                    syms[s + j],
                    #[trigger] text[j],
                ) by {
                    if j == 0 {
                        assert(symbol_matches(syms[s], text[0]));
                    } else {
                        assert(symbol_matches(syms[s + 1 + (j - 1)], rest[j - 1]));
                        assert(rest[j - 1] == text[j]);
                    }
                }
            }
        } else {
            assert(run(syms, 0, rest) == n);
            lemma_run_completion(syms, 0, rest);
            if exists|i: int| occurs_at(syms, rest, i) {
                let i = choose|i: int| occurs_at(syms, rest, i);
                lemma_occurrence_shift(syms, text, i);
                assert(occurs_at(syms, text, i + 1));
            } else {
                assert(occurs_at(syms, rest, 0)) by {
                    assert forall|t: int| 0 <= t < n implies symbol_matches(
                        syms[t - 0],
                        #[trigger] rest[t],
                    ) by {
                        assert(symbol_matches(syms[0 + t], rest[t]));
                    }
                }
                lemma_occurrence_shift(syms, text, 0);
                assert(occurs_at(syms, text, 1));
            }
        }
    }
}

/// The escape flag left pending after scanning `pattern`, starting with the
/// flag set to `escaped`: true exactly when the pattern ends in an unmatched
/// escape character.
pub open spec fn scan_escape(pattern: Seq<char>, escaped: bool) -> bool
    decreases pattern.len(),
{
    if pattern.len() == 0 {
        escaped
    } else if escaped {
        scan_escape(pattern.drop_first(), false)
    } else if pattern[0] == '\\' {
        scan_escape(pattern.drop_first(), true)
    } else {
        scan_escape(pattern.drop_first(), false)
    }
}

/// A trailing unmatched escape is dropped: appending a final `\` to a
/// pattern that does not already end in a pending escape emits no symbol, so
/// the extended pattern compiles to the same symbols and behaves the same
/// against every text.
pub proof fn lemma_trailing_escape_dropped(pattern: Seq<char>)
    requires
        !scan_escape(pattern, false),
    ensures
        pattern_symbols(pattern.push('\\')) == pattern_symbols(pattern),
{
    lemma_scan_push_backslash(pattern, false);
}

proof fn lemma_scan_push_backslash(pattern: Seq<char>, escaped: bool)
    requires
        !scan_escape(pattern, escaped),
    ensures
        scan(pattern.push('\\'), escaped) == scan(pattern, escaped),
    decreases pattern.len(),
{
    let p2 = pattern.push('\\');
    if pattern.len() == 0 {
        assert(!escaped);
        assert(p2.len() == 1);
        assert(p2[0] == '\\');
        assert(p2.drop_first() =~= Seq::<char>::empty());
        assert(scan(p2, false) == scan(Seq::<char>::empty(), true));
    } else {
        assert(p2.len() == pattern.len() + 1);
        assert(p2[0] == pattern[0]);
        assert(p2.drop_first() =~= pattern.drop_first().push('\\'));
        if escaped {
            lemma_scan_push_backslash(pattern.drop_first(), false);
            assert(scan(p2, true) == seq![escaped_symbol(p2[0])] + scan(p2.drop_first(), false));
        } else if pattern[0] == '\\' {
            lemma_scan_push_backslash(pattern.drop_first(), true);
            assert(scan(p2, false) == scan(p2.drop_first(), true));
        } else {
            lemma_scan_push_backslash(pattern.drop_first(), false);
            assert(scan(p2, false) == seq![plain_symbol(p2[0])] + scan(p2.drop_first(), false));
        }
    }
}

/// Matching is deterministic: it is a pure function of the compiled symbols
/// and the text, so two automata compiled from the same pattern have the
/// same number of states and of transitions and accept exactly the same
/// texts, and repeated matches of one text give the same answer.
pub proof fn lemma_compile_deterministic(a: Regexp, b: Regexp, pattern: Seq<char>, text: Seq<char>)
    requires
        a.wf(),
        b.wf(),
        a.syms() == pattern_symbols(pattern),
        b.syms() == pattern_symbols(pattern),
    ensures
        a.graph.nodes@.len() == b.graph.nodes@.len(),
        a.graph.edges@.len() == b.graph.edges@.len(),
        accepts(a.syms(), text) == accepts(b.syms(), text),
{
    assert(a.graph.edges@.len() == a.syms().len());
    assert(b.graph.edges@.len() == b.syms().len());
}

} // verus!
