//! The policy grammar, stated mathematically: each rule is a spec function
//! from an input character sequence to either `None` (the rule does not
//! match) or the remaining input paired with what the rule produced.
//! Alternatives are ordered (the first matching alternative wins), and the
//! connective rules are right-recursive: the first operator in the text
//! becomes the outermost node. The executable parser is proved to return
//! exactly what these functions say.

use vstd::prelude::*;

use crate::ast::AstView;
use crate::ast::Conjunction;
use crate::ast::PolicyScope;
use crate::ast::PolicyView;
use crate::ast::Quantifier;

verus! {

/// The whitespace characters the grammar skips around tokens.
pub open spec fn is_space(c: char) -> bool {
    c == ' ' || c == '\t' || c == '\r' || c == '\n'
}

/// Alphabetic characters, exactly as `char::is_alphabetic` classifies them;
/// the name is tied to that function by the trusted declaration below.
pub uninterp spec fn alphabetic(c: char) -> bool;

/// The ASCII letters.
pub open spec fn ascii_letter(c: char) -> bool {
    (97 <= c as u32 && c as u32 <= 122) || (65 <= c as u32 && c as u32 <= 90)
}

/// Relies on `char::is_alphabetic`: whether the character has the Unicode
/// `Alphabetic` property, a function of the character alone. Within the
/// ASCII range that property holds of exactly the letters.
pub assume_specification[ char::is_alphabetic ](c: char) -> (r: bool)
    ensures
        r == alphabetic(c),
        ascii_letter(c) ==> r,
        (c as u32) < 128 && !ascii_letter(c) ==> !r,
;

/// Length of the longest whitespace prefix of `s`.
pub open spec fn space_run(s: Seq<char>) -> nat
    decreases s.len(),
{
    if s.len() > 0 && is_space(s[0]) {
        (1 + space_run(s.skip(1))) as nat
    } else {
        0
    }
}

/// The input with its optional leading whitespace removed.
pub open spec fn ws0(s: Seq<char>) -> Seq<char> {
    s.skip(space_run(s) as int)
}

/// Mandatory whitespace: at least one whitespace character must be present.
pub open spec fn ws1(s: Seq<char>) -> Option<Seq<char>> {
    if s.len() > 0 && is_space(s[0]) {
        Some(ws0(s))
    } else {
        None
    }
}

/// A literal token: `t` must be the next characters of `s`, exactly.
pub open spec fn tag(s: Seq<char>, t: Seq<char>) -> Option<Seq<char>> {
    if t.is_prefix_of(s) {
        Some(s.skip(t.len() as int))
    } else {
        None
    }
}

/// A token that tolerates whitespace on both sides (`:`, `(`, `)`).
pub open spec fn token_ws0(s: Seq<char>, t: Seq<char>) -> Option<Seq<char>> {
    match tag(ws0(s), t) {
        Some(r) => Some(ws0(r)),
        None => None,
    }
}

/// A keyword: optional whitespace before, mandatory whitespace after, so
/// that an identifier continuing the keyword (`andrew`) cannot match it.
pub open spec fn keyword(s: Seq<char>, t: Seq<char>) -> Option<Seq<char>> {
    match tag(ws0(s), t) {
        Some(r) => ws1(r),
        None => None,
    }
}

/// An infix word: mandatory whitespace on both sides.
pub open spec fn infix(s: Seq<char>, t: Seq<char>) -> Option<Seq<char>> {
    match ws1(s) {
        Some(r1) => match tag(r1, t) {
            Some(r2) => ws1(r2),
            None => None,
        },
        None => None,
    }
}

pub open spec fn colon(s: Seq<char>) -> Option<Seq<char>> {
    token_ws0(s, ":"@)
}

pub open spec fn open_paren(s: Seq<char>) -> Option<Seq<char>> {
    token_ws0(s, "("@)
}

pub open spec fn close_paren(s: Seq<char>) -> Option<Seq<char>> {
    token_ws0(s, ")"@)
}

/// `always` or `sometimes`, each terminated by the colon token.
pub open spec fn scope_word(s: Seq<char>, t: Seq<char>) -> Option<Seq<char>> {
    match tag(ws0(s), t) {
        Some(r) => colon(r),
        None => None,
    }
}

pub open spec fn scope(s: Seq<char>) -> Option<(Seq<char>, PolicyScope)> {
    match scope_word(s, "always"@) {
        Some(r) => Some((r, PolicyScope::Always)),
        None => match scope_word(s, "sometimes"@) {
            Some(r) => Some((r, PolicyScope::Sometimes)),
            None => None,
        },
    }
}

pub open spec fn quantifier(s: Seq<char>) -> Option<(Seq<char>, Quantifier)> {
    match keyword(s, "some"@) {
        Some(r) => Some((r, Quantifier::Any)),
        None => match keyword(s, "all"@) {
            Some(r) => Some((r, Quantifier::All)),
            None => None,
        },
    }
}

pub open spec fn operator(s: Seq<char>) -> Option<(Seq<char>, Conjunction)> {
    match keyword(s, "and"@) {
        Some(r) => Some((r, Conjunction::And)),
        None => match keyword(s, "or"@) {
            Some(r) => Some((r, Conjunction::Or)),
            None => match keyword(s, "implies"@) {
                Some(r) => Some((r, Conjunction::Implies)),
                None => None,
            },
        },
    }
}

/// Length of the longest alphabetic prefix of `s`.
pub open spec fn alpha_run(s: Seq<char>) -> nat
    decreases s.len(),
{
    if s.len() > 0 && alphabetic(s[0]) {
        (1 + alpha_run(s.skip(1))) as nat
    } else {
        0
    }
}

/// Characters consumed by the identifier rule: one or more alphabetic runs,
/// each run optionally followed by a single underscore. A leading
/// underscore matches nothing; after two consecutive underscores the
/// identifier ends before the second one.
pub open spec fn ident_run(s: Seq<char>) -> nat
    decreases s.len(),
{
    let a = alpha_run(s);
    if a == 0 {
        0
    } else if a < s.len() && s[a as int] == '_' {
        (a + 1 + ident_run(s.skip(a as int + 1))) as nat
    } else {
        a
    }
}

/// An identifier: the consumed characters are returned as the match.
pub open spec fn ident(s: Seq<char>) -> Option<(Seq<char>, Seq<char>)> {
    let n = ident_run(s);
    if n == 0 {
        None
    } else {
        Some((s.skip(n as int), s.take(n as int)))
    }
}

/// A marker: an identifier between two double quotes, no inner whitespace.
pub open spec fn marker(s: Seq<char>) -> Option<(Seq<char>, Seq<char>)> {
    match tag(s, "\""@) {
        Some(r1) => match ident(r1) {
            Some((r2, name)) => match tag(r2, "\""@) {
                Some(r3) => Some((r3, name)),
                None => None,
            },
            None => None,
        },
        None => None,
    }
}

/// Builds the AST node for an operand pair joined by a connective.
pub open spec fn connect(op: Conjunction, src: AstView, dest: AstView) -> AstView {
    match op {
        Conjunction::And => AstView::And { src: Box::new(src), dest: Box::new(dest) },
        Conjunction::Or => AstView::Or { src: Box::new(src), dest: Box::new(dest) },
        Conjunction::Implies => AstView::Implies { src: Box::new(src), dest: Box::new(dest) },
    }
}

/// `src flows to dest`.
pub open spec fn flows_to_expr(s: Seq<char>) -> Option<(Seq<char>, AstView)> {
    match ident(s) {
        Some((r1, v1)) => match infix(r1, "flows to"@) {
            Some(r2) => match ident(r2) {
                Some((r3, v2)) => Some((r3, AstView::FlowsTo { src: v1, dest: v2 })),
                None => None,
            },
            None => None,
        },
        None => None,
    }
}

/// Rewrites a `FlowsTo` leaf into the `Through` leaf with the checkpoint.
pub open spec fn add_checkpoint(ft: AstView, cp: Seq<char>) -> AstView {
    match ft {
        AstView::FlowsTo { src, dest } => AstView::Through { src, dest, checkpoint: cp },
        _ => ft,
    }
}

/// `src flows to dest through checkpoint`.
pub open spec fn through_expr(s: Seq<char>) -> Option<(Seq<char>, AstView)> {
    match flows_to_expr(s) {
        Some((r1, ft)) => match infix(r1, "through"@) {
            Some(r2) => match ident(r2) {
                Some((r3, cp)) => Some((r3, add_checkpoint(ft, cp))),
                None => None,
            },
            None => None,
        },
        None => None,
    }
}

/// A flow relation: the `through` form is attempted first; a bare flow is
/// accepted only if the remaining input does not begin with a `through`
/// token, so that a malformed checkpoint cannot be silently discarded.
pub open spec fn flows_to_or_through_expr(s: Seq<char>) -> Option<(Seq<char>, AstView)> {
    match through_expr(s) {
        Some(r) => Some(r),
        None => match flows_to_expr(s) {
            Some((r1, node)) => if infix(r1, "through"@) is Some {
                None
            } else {
                Some((r1, node))
            },
            None => None,
        },
    }
}

/// `src has control flow influence on dest`.
pub open spec fn control_flow_expr(s: Seq<char>) -> Option<(Seq<char>, AstView)> {
    match ident(s) {
        Some((r1, v1)) => match infix(r1, "has control flow influence on"@) {
            Some(r2) => match ident(r2) {
                Some((r3, v2)) => Some((r3, AstView::ControlFlow { src: v1, dest: v2 })),
                None => None,
            },
            None => None,
        },
        None => None,
    }
}

/// Any leaf relation.
pub open spec fn leaf_expr(s: Seq<char>) -> Option<(Seq<char>, AstView)> {
    match flows_to_or_through_expr(s) {
        Some(r) => Some(r),
        None => control_flow_expr(s),
    }
}

/// A leaf relation joined to a further body by a connective.
pub open spec fn joined_bodies(s: Seq<char>) -> Option<(Seq<char>, AstView)>
    decreases s.len(), 1int,
{
    match leaf_expr(s) {
        Some((r1, src)) => match operator(r1) {
            Some((r2, op)) => if r2.len() < s.len() {
                match body(r2) {
                    Some((r3, dest)) => Some((r3, connect(op, src, dest))),
                    None => None,
                }
            } else {
                None
            },
            None => None,
        },
        None => None,
    }
}

/// A clause body made of leaf relations only: either a joined chain or a
/// single leaf.
pub open spec fn body(s: Seq<char>) -> Option<(Seq<char>, AstView)>
    decreases s.len(), 2int,
{
    match joined_bodies(s) {
        Some(r) => Some(r),
        None => leaf_expr(s),
    }
}

/// One operand inside a clause: a nested clause or a body.
pub open spec fn clause_or_body(s: Seq<char>) -> Option<(Seq<char>, AstView)>
    decreases s.len(), 4int,
{
    match variable_clause(s) {
        Some(r) => Some(r),
        None => body(s),
    }
}

/// What may follow an operator inside a clause: a joined chain, a nested
/// clause, or a body.
pub open spec fn clause_chain(s: Seq<char>) -> Option<(Seq<char>, AstView)>
    decreases s.len(), 6int,
{
    match joined_clauses(s) {
        Some(r) => Some(r),
        None => clause_or_body(s),
    }
}

/// Two or more clause operands joined by connectives; only legal inside an
/// enclosing clause, where bare bodies may stand on their own.
pub open spec fn joined_clauses(s: Seq<char>) -> Option<(Seq<char>, AstView)>
    decreases s.len(), 5int,
{
    match clause_or_body(s) {
        Some((r1, src)) => match operator(r1) {
            Some((r2, op)) => if r2.len() < s.len() {
                match clause_chain(r2) {
                    Some((r3, dest)) => Some((r3, connect(op, src, dest))),
                    None => None,
                }
            } else {
                None
            },
            None => None,
        },
        None => None,
    }
}

/// `quantifier variable : "marker" ( body-of-clause )`.
pub open spec fn variable_clause(s: Seq<char>) -> Option<(Seq<char>, AstView)>
    decreases s.len(), 3int,
{
    match quantifier(s) {
        Some((r1, q)) => match ident(r1) {
            Some((r2, var)) => match colon(r2) {
                Some(r3) => match marker(r3) {
                    Some((r4, m)) => match open_paren(r4) {
                        Some(r5) => if r5.len() < s.len() {
                            match clause_chain(r5) {
                                Some((r6, bd)) => match close_paren(r6) {
                                    Some(r7) => Some(
                                        (
                                            r7,
                                            AstView::VarIntroduction {
                                                quantifier: q,
                                                variable: var,
                                                marker: m,
                                                body: Box::new(bd),
                                            },
                                        ),
                                    ),
                                    None => None,
                                },
                                None => None,
                            }
                        } else {
                            None
                        },
                        None => None,
                    },
                    None => None,
                },
                None => None,
            },
            None => None,
        },
        None => None,
    }
}

/// Top-level joined expression: every operand must be a variable clause, so
/// a bare leaf relation cannot appear unbound at the top level.
pub open spec fn joined_variable_clauses(s: Seq<char>) -> Option<(Seq<char>, AstView)>
    decreases s.len(), 4int,
{
    match variable_clause(s) {
        Some((r1, src)) => match operator(r1) {
            Some((r2, op)) => if r2.len() < s.len() {
                match exprs(r2) {
                    Some((r3, dest)) => Some((r3, connect(op, src, dest))),
                    None => None,
                }
            } else {
                None
            },
            None => None,
        },
        None => None,
    }
}

/// The top level of a policy body.
pub open spec fn exprs(s: Seq<char>) -> Option<(Seq<char>, AstView)>
    decreases s.len(), 7int,
{
    match joined_variable_clauses(s) {
        Some(r) => Some(r),
        None => variable_clause(s),
    }
}

/// A whole policy: scope, then the top-level expression, with the entire
/// input consumed.
pub open spec fn parse(s: Seq<char>) -> Option<PolicyView> {
    match scope(s) {
        Some((r1, sc)) => match exprs(r1) {
            Some((r2, bd)) => if r2.len() == 0 {
                Some(PolicyView { scope: sc, body: bd })
            } else {
                None
            },
            None => None,
        },
        None => None,
    }
}

} // verus!
