//! The executable recursive-descent parser. Each function consumes from the
//! front of a string slice and returns the remaining input together with
//! what it recognized; its contract says that it returns exactly what the
//! corresponding rule in [`crate::grammar`] denotes. Errors carry the stack
//! of named rules that were being attempted, innermost first, each with the
//! number of characters that remained at that rule.

use vstd::prelude::*;

use crate::ast::ASTNode;
use crate::ast::Conjunction;
use crate::ast::PolicyBody;
use crate::ast::PolicyScope;
use crate::ast::Quantifier;
use crate::ast::ThreeVarObligation;
use crate::ast::TwoNodeObligation;
use crate::ast::TwoVarObligation;
use crate::ast::VariableBinding;
use crate::ast::VariableClause;
use crate::grammar;

verus! {

/// A parse failure: the named grammar rules that were being attempted,
/// innermost first, each with how many characters of input remained there.
#[derive(Debug, PartialEq, Eq)]
pub struct ParseError {
    pub frames: Vec<(String, usize)>,
}

impl ParseError {
    /// A failure of `rule` with `rest` characters of input left.
    fn at(rule: &str, rest: usize) -> (e: ParseError)
        ensures
            e.frames@.len() >= 1,
    {
        ParseError { frames: vec![(rule.to_owned(), rest)] }
    }

    /// Wraps a failure in the enclosing rule's context.
    fn within(self, rule: &str, rest: usize) -> (e: ParseError)
        ensures
            e.frames@.len() >= 1,
    {
        let mut e = self;
        e.frames.push((rule.to_owned(), rest));
        e
    }
}

fn is_space_char(c: char) -> (r: bool)
    ensures
        r == grammar::is_space(c),
{
    c == ' ' || c == '\t' || c == '\r' || c == '\n'
}

proof fn lemma_space_run_at(s: Seq<char>, i: int)
    requires
        0 <= i <= s.len(),
        forall|j: int| 0 <= j < i ==> grammar::is_space(s[j]),
        i == s.len() || !grammar::is_space(s[i]),
    ensures
        grammar::space_run(s) == i,
    decreases i,
{
    if i == 0 {
    } else {
        assert(grammar::is_space(s[0]));
        assert forall|j: int| 0 <= j < i - 1 implies grammar::is_space(s.skip(1)[j]) by {
            assert(s.skip(1)[j] == s[j + 1]);
        }
        if i - 1 < s.skip(1).len() {
            assert(s.skip(1)[i - 1] == s[i]);
        }
        lemma_space_run_at(s.skip(1), i - 1);
    }
}

proof fn lemma_alpha_run_at(s: Seq<char>, i: int)
    requires
        0 <= i <= s.len(),
        forall|j: int| 0 <= j < i ==> grammar::alphabetic(s[j]),
        i == s.len() || !grammar::alphabetic(s[i]),
    ensures
        grammar::alpha_run(s) == i,
    decreases i,
{
    if i == 0 {
    } else {
        assert(grammar::alphabetic(s[0]));
        assert forall|j: int| 0 <= j < i - 1 implies grammar::alphabetic(s.skip(1)[j]) by {
            assert(s.skip(1)[j] == s[j + 1]);
        }
        if i - 1 < s.skip(1).len() {
            assert(s.skip(1)[i - 1] == s[i]);
        }
        lemma_alpha_run_at(s.skip(1), i - 1);
    }
}

proof fn lemma_space_run_le(s: Seq<char>)
    ensures
        grammar::space_run(s) <= s.len(),
    decreases s.len(),
{
    if s.len() > 0 && grammar::is_space(s[0]) {
        lemma_space_run_le(s.skip(1));
    }
}

proof fn lemma_alpha_run_le(s: Seq<char>)
    ensures
        grammar::alpha_run(s) <= s.len(),
    decreases s.len(),
{
    if s.len() > 0 && grammar::alphabetic(s[0]) {
        lemma_alpha_run_le(s.skip(1));
    }
}

proof fn lemma_ident_run_le(s: Seq<char>)
    ensures
        grammar::ident_run(s) <= s.len(),
    decreases s.len(),
{
    lemma_alpha_run_le(s);
    let a = grammar::alpha_run(s);
    if a != 0 && a < s.len() && s[a as int] == '_' {
        lemma_ident_run_le(s.skip(a as int + 1));
    }
}

/// Skips the longest whitespace prefix.
fn skip_ws<'a>(s: &'a str) -> (r: &'a str)
    ensures
        r@ == grammar::ws0(s@),
        r@.len() <= s@.len(),
{
    let len = s.unicode_len();
    let mut i: usize = 0;
    loop
        invariant
            i <= len,
            len == s@.len(),
            forall|j: int| 0 <= j < i ==> grammar::is_space(s@[j]),
        ensures
            i <= len,
            forall|j: int| 0 <= j < i ==> grammar::is_space(s@[j]),
            i == len || !grammar::is_space(s@[i as int]),
        decreases len - i,
    {
        if i >= len {
            break ;
        }
        let c = s.get_char(i);
        if !is_space_char(c) {
            break ;
        }
        i += 1;
    }
    proof {
        lemma_space_run_at(s@, i as int);
    }
    s.substring_char(i, len)
}

/// Demands at least one whitespace character, then skips all of them.
fn expect_ws1<'a>(s: &'a str) -> (r: Option<&'a str>)
    ensures
        match r {
            Some(rem) => grammar::ws1(s@) == Some(rem@),
            None => grammar::ws1(s@) is None,
        },
{
    if s.unicode_len() == 0 {
        return None;
    }
    let c = s.get_char(0);
    if is_space_char(c) {
        Some(skip_ws(s))
    } else {
        None
    }
}

/// Demands that the characters of `t` come next, and consumes them.
fn expect_tag<'a>(s: &'a str, t: &str) -> (r: Option<&'a str>)
    ensures
        match r {
            Some(rem) => grammar::tag(s@, t@) == Some(rem@),
            None => grammar::tag(s@, t@) is None,
        },
{
    let n = t.unicode_len();
    let len = s.unicode_len();
    if len < n {
        return None;
    }
    let mut i: usize = 0;
    while i < n
        invariant
            i <= n,
            n == t@.len(),
            n <= len,
            len == s@.len(),
            forall|j: int| 0 <= j < i ==> s@[j] == t@[j],
        decreases n - i,
    {
        let cs = s.get_char(i);
        let ct = t.get_char(i);
        if cs != ct {
            proof {
                assert(!t@.is_prefix_of(s@)) by {
                    if t@.is_prefix_of(s@) {
                        assert(t@[i as int] == s@.subrange(0, t@.len() as int)[i as int]);
                    }
                }
            }
            return None;
        }
        i += 1;
    }
    proof {
        assert(t@ =~= s@.subrange(0, t@.len() as int));
    }
    Some(s.substring_char(n, len))
}

/// A token with optional whitespace on both sides.
fn token_ws0<'a>(s: &'a str, t: &str) -> (r: Option<&'a str>)
    ensures
        match r {
            Some(rem) => grammar::token_ws0(s@, t@) == Some(rem@),
            None => grammar::token_ws0(s@, t@) is None,
        },
{
    let s1 = skip_ws(s);
    match expect_tag(s1, t) {
        Some(s2) => Some(skip_ws(s2)),
        None => None,
    }
}

/// A keyword: optional whitespace before, mandatory whitespace after.
fn keyword<'a>(s: &'a str, t: &str) -> (r: Option<&'a str>)
    ensures
        match r {
            Some(rem) => grammar::keyword(s@, t@) == Some(rem@),
            None => grammar::keyword(s@, t@) is None,
        },
{
    let s1 = skip_ws(s);
    match expect_tag(s1, t) {
        Some(s2) => expect_ws1(s2),
        None => None,
    }
}

/// An infix word: mandatory whitespace on both sides.
fn infix<'a>(s: &'a str, t: &str) -> (r: Option<&'a str>)
    ensures
        match r {
            Some(rem) => grammar::infix(s@, t@) == Some(rem@),
            None => grammar::infix(s@, t@) is None,
        },
{
    match expect_ws1(s) {
        Some(s1) => match expect_tag(s1, t) {
            Some(s2) => expect_ws1(s2),
            None => None,
        },
        None => None,
    }
}

/// Length of the longest alphabetic prefix.
fn alpha_len(s: &str) -> (n: usize)
    ensures
        n == grammar::alpha_run(s@),
        n <= s@.len(),
{
    let len = s.unicode_len();
    let mut i: usize = 0;
    loop
        invariant
            i <= len,
            len == s@.len(),
            forall|j: int| 0 <= j < i ==> grammar::alphabetic(s@[j]),
        ensures
            i <= len,
            forall|j: int| 0 <= j < i ==> grammar::alphabetic(s@[j]),
            i == len || !grammar::alphabetic(s@[i as int]),
        decreases len - i,
    {
        if i >= len {
            break ;
        }
        let c = s.get_char(i);
        if !c.is_alphabetic() {
            break ;
        }
        i += 1;
    }
    proof {
        lemma_alpha_run_at(s@, i as int);
    }
    i
}

/// Length of the identifier prefix: alphabetic runs, each optionally
/// followed by one underscore.
fn ident_len(s: &str) -> (n: usize)
    ensures
        n == grammar::ident_run(s@),
        n <= s@.len(),
    decreases s@.len(),
{
    let a = alpha_len(s);
    if a == 0 {
        return 0;
    }
    let len = s.unicode_len();
    if a < len && s.get_char(a) == '_' {
        let rest = s.substring_char(a + 1, len);
        let m = ident_len(rest);
        proof {
            assert(rest@ == s@.skip(a as int + 1));
        }
        a + 1 + m
    } else {
        a
    }
}

/// One or more alphabetic runs separated by single underscores; a trailing
/// underscore is accepted, a leading one is not, and a second consecutive
/// underscore ends the match before it.
pub fn alphabetic_w_underscores<'a>(s: &'a str) -> (r: Result<(&'a str, &'a str), ParseError>)
    ensures
        match r {
            Ok((rem, m)) => grammar::ident(s@) == Some((rem@, m@)),
            Err(e) => grammar::ident(s@) is None && e.frames@.len() >= 1,
        },
{
    let n = ident_len(s);
    if n == 0 {
        Err(ParseError::at("alphabetic w/ underscores", s.unicode_len()))
    } else {
        let len = s.unicode_len();
        Ok((s.substring_char(n, len), s.substring_char(0, n)))
    }
}

proof fn lemma_ws0_le(s: Seq<char>)
    ensures
        grammar::ws0(s).len() <= s.len(),
{
    lemma_space_run_le(s);
}

/// A successful token consumes at least the token's own characters.
proof fn lemma_token_ws0_consumes(s: Seq<char>, t: Seq<char>)
    requires
        t.len() >= 1,
    ensures
        grammar::token_ws0(s, t) matches Some(r) ==> r.len() < s.len(),
{
    lemma_ws0_le(s);
    match grammar::tag(grammar::ws0(s), t) {
        Some(r1) => {
            lemma_ws0_le(r1);
        },
        None => {},
    }
}

proof fn lemma_keyword_consumes(s: Seq<char>, t: Seq<char>)
    requires
        t.len() >= 1,
    ensures
        grammar::keyword(s, t) matches Some(r) ==> r.len() < s.len(),
{
    lemma_ws0_le(s);
    match grammar::tag(grammar::ws0(s), t) {
        Some(r1) => {
            lemma_ws0_le(r1);
        },
        None => {},
    }
}

proof fn lemma_infix_consumes(s: Seq<char>, t: Seq<char>)
    requires
        t.len() >= 1,
    ensures
        grammar::infix(s, t) matches Some(r) ==> r.len() < s.len(),
{
    match grammar::ws1(s) {
        Some(r1) => {
            lemma_ws0_le(s);
            match grammar::tag(r1, t) {
                Some(r2) => {
                    lemma_ws0_le(r2);
                },
                None => {},
            }
        },
        None => {},
    }
}

proof fn lemma_ident_consumes(s: Seq<char>)
    ensures
        grammar::ident(s) matches Some((r, _)) ==> r.len() < s.len(),
{
    lemma_ident_run_le(s);
}

proof fn lemma_marker_consumes(s: Seq<char>)
    ensures
        grammar::marker(s) matches Some((r, _)) ==> r.len() < s.len(),
{
    reveal_strlit("\"");
    match grammar::tag(s, "\""@) {
        Some(r1) => {
            match grammar::ident(r1) {
                Some((r2, _)) => {
                    lemma_ident_consumes(r1);
                },
                None => {},
            }
        },
        None => {},
    }
}

proof fn lemma_colon_consumes(s: Seq<char>)
    ensures
        grammar::colon(s) matches Some(r) ==> r.len() < s.len(),
{
    reveal_strlit(":");
    lemma_token_ws0_consumes(s, ":"@);
}

proof fn lemma_open_paren_consumes(s: Seq<char>)
    ensures
        grammar::open_paren(s) matches Some(r) ==> r.len() < s.len(),
{
    reveal_strlit("(");
    lemma_token_ws0_consumes(s, "("@);
}

proof fn lemma_close_paren_consumes(s: Seq<char>)
    ensures
        grammar::close_paren(s) matches Some(r) ==> r.len() < s.len(),
{
    reveal_strlit(")");
    lemma_token_ws0_consumes(s, ")"@);
}

proof fn lemma_operator_consumes(s: Seq<char>)
    ensures
        grammar::operator(s) matches Some((r, _)) ==> r.len() < s.len(),
{
    reveal_strlit("and");
    reveal_strlit("or");
    reveal_strlit("implies");
    lemma_keyword_consumes(s, "and"@);
    lemma_keyword_consumes(s, "or"@);
    lemma_keyword_consumes(s, "implies"@);
}

proof fn lemma_quantifier_consumes(s: Seq<char>)
    ensures
        grammar::quantifier(s) matches Some((r, _)) ==> r.len() < s.len(),
{
    reveal_strlit("some");
    reveal_strlit("all");
    lemma_keyword_consumes(s, "some"@);
    lemma_keyword_consumes(s, "all"@);
}

proof fn lemma_scope_consumes(s: Seq<char>)
    ensures
        grammar::scope(s) matches Some((r, _)) ==> r.len() < s.len(),
{
    reveal_strlit("always");
    reveal_strlit("sometimes");
    lemma_ws0_le(s);
    match grammar::tag(grammar::ws0(s), "always"@) {
        Some(r1) => {
            lemma_colon_consumes(r1);
        },
        None => {},
    }
    match grammar::tag(grammar::ws0(s), "sometimes"@) {
        Some(r1) => {
            lemma_colon_consumes(r1);
        },
        None => {},
    }
}

proof fn lemma_flows_to_expr_consumes(s: Seq<char>)
    ensures
        grammar::flows_to_expr(s) matches Some((r, _)) ==> r.len() < s.len(),
{
    reveal_strlit("flows to");
    match grammar::ident(s) {
        Some((r1, _)) => {
            lemma_ident_consumes(s);
            match grammar::infix(r1, "flows to"@) {
                Some(r2) => {
                    lemma_infix_consumes(r1, "flows to"@);
                    lemma_ident_consumes(r2);
                },
                None => {},
            }
        },
        None => {},
    }
}

proof fn lemma_through_expr_consumes(s: Seq<char>)
    ensures
        grammar::through_expr(s) matches Some((r, _)) ==> r.len() < s.len(),
{
    reveal_strlit("through");
    match grammar::flows_to_expr(s) {
        Some((r1, _)) => {
            lemma_flows_to_expr_consumes(s);
            match grammar::infix(r1, "through"@) {
                Some(r2) => {
                    lemma_infix_consumes(r1, "through"@);
                    lemma_ident_consumes(r2);
                },
                None => {},
            }
        },
        None => {},
    }
}

proof fn lemma_control_flow_expr_consumes(s: Seq<char>)
    ensures
        grammar::control_flow_expr(s) matches Some((r, _)) ==> r.len() < s.len(),
{
    reveal_strlit("has control flow influence on");
    match grammar::ident(s) {
        Some((r1, _)) => {
            lemma_ident_consumes(s);
            match grammar::infix(r1, "has control flow influence on"@) {
                Some(r2) => {
                    lemma_infix_consumes(r1, "has control flow influence on"@);
                    lemma_ident_consumes(r2);
                },
                None => {},
            }
        },
        None => {},
    }
}

proof fn lemma_leaf_expr_consumes(s: Seq<char>)
    ensures
        grammar::leaf_expr(s) matches Some((r, _)) ==> r.len() < s.len(),
{
    lemma_through_expr_consumes(s);
    lemma_flows_to_expr_consumes(s);
    lemma_control_flow_expr_consumes(s);
}

proof fn lemma_joined_bodies_consumes(s: Seq<char>)
    ensures
        grammar::joined_bodies(s) matches Some((r, _)) ==> r.len() < s.len(),
    decreases s.len(), 1int,
{
    match grammar::leaf_expr(s) {
        Some((r1, _)) => {
            lemma_leaf_expr_consumes(s);
            match grammar::operator(r1) {
                Some((r2, _)) => {
                    lemma_operator_consumes(r1);
                    if r2.len() < s.len() {
                        lemma_body_consumes(r2);
                    }
                },
                None => {},
            }
        },
        None => {},
    }
}

proof fn lemma_body_consumes(s: Seq<char>)
    ensures
        grammar::body(s) matches Some((r, _)) ==> r.len() < s.len(),
    decreases s.len(), 2int,
{
    lemma_joined_bodies_consumes(s);
    lemma_leaf_expr_consumes(s);
}

proof fn lemma_variable_clause_consumes(s: Seq<char>)
    ensures
        grammar::variable_clause(s) matches Some((r, _)) ==> r.len() < s.len(),
    decreases s.len(), 3int,
{
    match grammar::quantifier(s) {
        Some((r1, _)) => {
            lemma_quantifier_consumes(s);
            match grammar::ident(r1) {
                Some((r2, _)) => {
                    lemma_ident_consumes(r1);
                    match grammar::colon(r2) {
                        Some(r3) => {
                            lemma_colon_consumes(r2);
                            match grammar::marker(r3) {
                                Some((r4, _)) => {
                                    lemma_marker_consumes(r3);
                                    match grammar::open_paren(r4) {
                                        Some(r5) => {
                                            lemma_open_paren_consumes(r4);
                                            if r5.len() < s.len() {
                                                match grammar::clause_chain(r5) {
                                                    Some((r6, _)) => {
                                                        lemma_clause_chain_consumes(r5);
                                                        lemma_close_paren_consumes(r6);
                                                    },
                                                    None => {},
                                                }
                                            }
                                        },
                                        None => {},
                                    }
                                },
                                None => {},
                            }
                        },
                        None => {},
                    }
                },
                None => {},
            }
        },
        None => {},
    }
}

proof fn lemma_clause_or_body_consumes(s: Seq<char>)
    ensures
        grammar::clause_or_body(s) matches Some((r, _)) ==> r.len() < s.len(),
    decreases s.len(), 4int,
{
    lemma_variable_clause_consumes(s);
    lemma_body_consumes(s);
}

proof fn lemma_joined_clauses_consumes(s: Seq<char>)
    ensures
        grammar::joined_clauses(s) matches Some((r, _)) ==> r.len() < s.len(),
    decreases s.len(), 5int,
{
    match grammar::clause_or_body(s) {
        Some((r1, _)) => {
            lemma_clause_or_body_consumes(s);
            match grammar::operator(r1) {
                Some((r2, _)) => {
                    lemma_operator_consumes(r1);
                    if r2.len() < s.len() {
                        lemma_clause_chain_consumes(r2);
                    }
                },
                None => {},
            }
        },
        None => {},
    }
}

proof fn lemma_clause_chain_consumes(s: Seq<char>)
    ensures
        grammar::clause_chain(s) matches Some((r, _)) ==> r.len() < s.len(),
    decreases s.len(), 6int,
{
    lemma_joined_clauses_consumes(s);
    lemma_clause_or_body_consumes(s);
}

proof fn lemma_joined_variable_clauses_consumes(s: Seq<char>)
    ensures
        grammar::joined_variable_clauses(s) matches Some((r, _)) ==> r.len() < s.len(),
    decreases s.len(), 4int,
{
    match grammar::variable_clause(s) {
        Some((r1, _)) => {
            lemma_variable_clause_consumes(s);
            match grammar::operator(r1) {
                Some((r2, _)) => {
                    lemma_operator_consumes(r1);
                    if r2.len() < s.len() {
                        lemma_exprs_consumes(r2);
                    }
                },
                None => {},
            }
        },
        None => {},
    }
}

proof fn lemma_exprs_consumes(s: Seq<char>)
    ensures
        grammar::exprs(s) matches Some((r, _)) ==> r.len() < s.len(),
    decreases s.len(), 7int,
{
    lemma_joined_variable_clauses_consumes(s);
    lemma_variable_clause_consumes(s);
}

/// The policy scope: `always` or `sometimes`, followed by a colon.
pub fn scope<'a>(s: &'a str) -> (r: Result<(&'a str, PolicyScope), ParseError>)
    ensures
        match r {
            Ok((rem, sc)) => grammar::scope(s@) == Some((rem@, sc)),
            Err(e) => grammar::scope(s@) is None && e.frames@.len() >= 1,
        },
{
    let s1 = skip_ws(s);
    match expect_tag(s1, "always") {
        Some(s2) => match token_ws0(s2, ":") {
            Some(s3) => {
                return Ok((s3, PolicyScope::Always));
            },
            None => {},
        },
        None => {},
    }
    match expect_tag(s1, "sometimes") {
        Some(s2) => match token_ws0(s2, ":") {
            Some(s3) => {
                return Ok((s3, PolicyScope::Sometimes));
            },
            None => {},
        },
        None => {},
    }
    Err(ParseError::at("scope", s.unicode_len()))
}

/// A quantifier keyword: `some` or `all`.
fn quantifier<'a>(s: &'a str) -> (r: Result<(&'a str, Quantifier), ParseError>)
    ensures
        match r {
            Ok((rem, q)) => grammar::quantifier(s@) == Some((rem@, q)),
            Err(e) => grammar::quantifier(s@) is None && e.frames@.len() >= 1,
        },
{
    match keyword(s, "some") {
        Some(rem) => {
            return Ok((rem, Quantifier::Any));
        },
        None => {},
    }
    match keyword(s, "all") {
        Some(rem) => {
            return Ok((rem, Quantifier::All));
        },
        None => {},
    }
    Err(ParseError::at("quantifier", s.unicode_len()))
}

/// A connective keyword: `and`, `or` or `implies`.
fn operator<'a>(s: &'a str) -> (r: Result<(&'a str, Conjunction), ParseError>)
    ensures
        match r {
            Ok((rem, op)) => grammar::operator(s@) == Some((rem@, op)),
            Err(e) => grammar::operator(s@) is None && e.frames@.len() >= 1,
        },
{
    match keyword(s, "and") {
        Some(rem) => {
            return Ok((rem, Conjunction::And));
        },
        None => {},
    }
    match keyword(s, "or") {
        Some(rem) => {
            return Ok((rem, Conjunction::Or));
        },
        None => {},
    }
    match keyword(s, "implies") {
        Some(rem) => {
            return Ok((rem, Conjunction::Implies));
        },
        None => {},
    }
    Err(ParseError::at("operator", s.unicode_len()))
}

/// A variable: a bare identifier.
pub fn variable<'a>(s: &'a str) -> (r: Result<(&'a str, &'a str), ParseError>)
    ensures
        match r {
            Ok((rem, m)) => grammar::ident(s@) == Some((rem@, m@)),
            Err(e) => grammar::ident(s@) is None && e.frames@.len() >= 1,
        },
{
    match alphabetic_w_underscores(s) {
        Ok(p) => Ok(p),
        Err(e) => Err(e.within("variable", s.unicode_len())),
    }
}

/// A marker: an identifier between double quotes.
pub fn marker<'a>(s: &'a str) -> (r: Result<(&'a str, &'a str), ParseError>)
    ensures
        match r {
            Ok((rem, m)) => grammar::marker(s@) == Some((rem@, m@)),
            Err(e) => grammar::marker(s@) is None && e.frames@.len() >= 1,
        },
{
    let len = s.unicode_len();
    match expect_tag(s, "\"") {
        Some(r1) => match alphabetic_w_underscores(r1) {
            Ok((r2, name)) => match expect_tag(r2, "\"") {
                Some(r3) => Ok((r3, name)),
                None => Err(ParseError::at("marker", len)),
            },
            Err(e) => Err(e.within("marker", len)),
        },
        None => Err(ParseError::at("marker", len)),
    }
}

/// `src flows to dest`, returning the two variable names.
fn flows_to_parts<'a>(s: &'a str) -> (r: Result<(&'a str, (&'a str, &'a str)), ParseError>)
    ensures
        match r {
            Ok((rem, (v1, v2))) => grammar::flows_to_expr(s@) == Some(
                (rem@, crate::ast::AstView::FlowsTo { src: v1@, dest: v2@ }),
            ),
            Err(e) => grammar::flows_to_expr(s@) is None && e.frames@.len() >= 1,
        },
{
    let len = s.unicode_len();
    match alphabetic_w_underscores(s) {
        Ok((r1, v1)) => match infix(r1, "flows to") {
            Some(r2) => match alphabetic_w_underscores(r2) {
                Ok((r3, v2)) => Ok((r3, (v1, v2))),
                Err(e) => Err(e.within("flows to expr", len)),
            },
            None => Err(ParseError::at("flows to expr", len)),
        },
        Err(e) => Err(e.within("flows to expr", len)),
    }
}

/// `src flows to dest`.
fn flows_to_expr<'a>(s: &'a str) -> (r: Result<(&'a str, ASTNode), ParseError>)
    ensures
        match r {
            Ok((rem, n)) => grammar::flows_to_expr(s@) == Some((rem@, n@)),
            Err(e) => grammar::flows_to_expr(s@) is None && e.frames@.len() >= 1,
        },
{
    match flows_to_parts(s) {
        Ok((rem, (v1, v2))) => Ok(
            (rem, ASTNode::FlowsTo(TwoVarObligation { src: v1.to_owned(), dest: v2.to_owned() })),
        ),
        Err(e) => Err(e),
    }
}

/// `src flows to dest through checkpoint`, rewritten into a `Through` leaf
/// that reuses the flow's two variables.
fn through_expr<'a>(s: &'a str) -> (r: Result<(&'a str, ASTNode), ParseError>)
    ensures
        match r {
            Ok((rem, n)) => grammar::through_expr(s@) == Some((rem@, n@)),
            Err(e) => grammar::through_expr(s@) is None && e.frames@.len() >= 1,
        },
{
    let len = s.unicode_len();
    match flows_to_parts(s) {
        Ok((r1, (v1, v2))) => match infix(r1, "through") {
            Some(r2) => match alphabetic_w_underscores(r2) {
                Ok((r3, cp)) => Ok(
                    (
                        r3,
                        ASTNode::Through(
                            ThreeVarObligation {
                                src: v1.to_owned(),
                                dest: v2.to_owned(),
                                checkpoint: cp.to_owned(),
                            },
                        ),
                    ),
                ),
                Err(e) => Err(e.within("through expr", len)),
            },
            None => Err(ParseError::at("through expr", len)),
        },
        Err(e) => Err(e.within("through expr", len)),
    }
}

/// `src has control flow influence on dest`.
fn control_flow_expr<'a>(s: &'a str) -> (r: Result<(&'a str, ASTNode), ParseError>)
    ensures
        match r {
            Ok((rem, n)) => grammar::control_flow_expr(s@) == Some((rem@, n@)),
            Err(e) => grammar::control_flow_expr(s@) is None && e.frames@.len() >= 1,
        },
{
    let len = s.unicode_len();
    match alphabetic_w_underscores(s) {
        Ok((r1, v1)) => match infix(r1, "has control flow influence on") {
            Some(r2) => match alphabetic_w_underscores(r2) {
                Ok((r3, v2)) => Ok(
                    (
                        r3,
                        ASTNode::ControlFlow(
                            TwoVarObligation { src: v1.to_owned(), dest: v2.to_owned() },
                        ),
                    ),
                ),
                Err(e) => Err(e.within("control flow expr", len)),
            },
            None => Err(ParseError::at("control flow expr", len)),
        },
        Err(e) => Err(e.within("control flow expr", len)),
    }
}

/// A flow relation: the `through` form first; a bare flow only when no
/// `through` token follows it.
pub fn flows_to_or_through_expr<'a>(s: &'a str) -> (r: Result<(&'a str, ASTNode), ParseError>)
    ensures
        match r {
            Ok((rem, n)) => grammar::flows_to_or_through_expr(s@) == Some((rem@, n@)),
            Err(e) => grammar::flows_to_or_through_expr(s@) is None && e.frames@.len() >= 1,
        },
{
    let len = s.unicode_len();
    match through_expr(s) {
        Ok(p) => Ok(p),
        Err(_) => match flows_to_expr(s) {
            Ok((rem, n)) => match infix(rem, "through") {
                Some(_) => Err(ParseError::at("flows to or through expr", len)),
                None => Ok((rem, n)),
            },
            Err(e) => Err(e.within("flows to or through expr", len)),
        },
    }
}

/// Any leaf relation.
fn leaf_expr<'a>(s: &'a str) -> (r: Result<(&'a str, ASTNode), ParseError>)
    ensures
        match r {
            Ok((rem, n)) => grammar::leaf_expr(s@) == Some((rem@, n@)),
            Err(e) => grammar::leaf_expr(s@) is None && e.frames@.len() >= 1,
        },
{
    match flows_to_or_through_expr(s) {
        Ok(p) => Ok(p),
        Err(_) => control_flow_expr(s),
    }
}

/// Joins two operands with a connective node.
fn make_connective(op: Conjunction, src: ASTNode, dest: ASTNode) -> (r: ASTNode)
    ensures
        r@ == grammar::connect(op, src@, dest@),
{
    let b = Box::new(TwoNodeObligation { src, dest });
    match op {
        Conjunction::And => ASTNode::And(b),
        Conjunction::Or => ASTNode::Or(b),
        Conjunction::Implies => ASTNode::Implies(b),
    }
}

/// A leaf relation joined to a further body by a connective; right-recursive,
/// so the first operator becomes the outermost node.
fn joined_bodies<'a>(s: &'a str) -> (r: Result<(&'a str, ASTNode), ParseError>)
    ensures
        match r {
            Ok((rem, n)) => grammar::joined_bodies(s@) == Some((rem@, n@)),
            Err(e) => grammar::joined_bodies(s@) is None && e.frames@.len() >= 1,
        },
    decreases s@.len(), 1int,
{
    let len = s.unicode_len();
    match leaf_expr(s) {
        Ok((r1, src)) => match operator(r1) {
            Ok((r2, op)) => {
                proof {
                    lemma_leaf_expr_consumes(s@);
                    lemma_operator_consumes(r1@);
                }
                match body(r2) {
                    Ok((r3, dest)) => Ok((r3, make_connective(op, src, dest))),
                    Err(e) => Err(e.within("joined bodies", len)),
                }
            },
            Err(e) => Err(e.within("joined bodies", len)),
        },
        Err(e) => Err(e.within("joined bodies", len)),
    }
}

/// A clause body made of leaf relations: a joined chain or a single leaf.
pub fn body<'a>(s: &'a str) -> (r: Result<(&'a str, ASTNode), ParseError>)
    ensures
        match r {
            Ok((rem, n)) => grammar::body(s@) == Some((rem@, n@)),
            Err(e) => grammar::body(s@) is None && e.frames@.len() >= 1,
        },
    decreases s@.len(), 2int,
{
    let len = s.unicode_len();
    match joined_bodies(s) {
        Ok(p) => Ok(p),
        Err(_) => match leaf_expr(s) {
            Ok(p) => Ok(p),
            Err(e) => Err(e.within("body", len)),
        },
    }
}

/// One operand inside a clause: a nested clause or a body.
fn clause_or_body<'a>(s: &'a str) -> (r: Result<(&'a str, ASTNode), ParseError>)
    ensures
        match r {
            Ok((rem, n)) => grammar::clause_or_body(s@) == Some((rem@, n@)),
            Err(e) => grammar::clause_or_body(s@) is None && e.frames@.len() >= 1,
        },
    decreases s@.len(), 4int,
{
    match variable_clause(s) {
        Ok(p) => Ok(p),
        Err(_) => body(s),
    }
}

/// What may follow an operator inside a clause: a joined chain, a nested
/// clause, or a body.
fn clause_chain<'a>(s: &'a str) -> (r: Result<(&'a str, ASTNode), ParseError>)
    ensures
        match r {
            Ok((rem, n)) => grammar::clause_chain(s@) == Some((rem@, n@)),
            Err(e) => grammar::clause_chain(s@) is None && e.frames@.len() >= 1,
        },
    decreases s@.len(), 6int,
{
    match joined_clauses(s) {
        Ok(p) => Ok(p),
        Err(_) => clause_or_body(s),
    }
}

/// Two or more operands joined by connectives, inside a clause, where bare
/// bodies are legal operands.
pub fn joined_clauses<'a>(s: &'a str) -> (r: Result<(&'a str, ASTNode), ParseError>)
    ensures
        match r {
            Ok((rem, n)) => grammar::joined_clauses(s@) == Some((rem@, n@)),
            Err(e) => grammar::joined_clauses(s@) is None && e.frames@.len() >= 1,
        },
    decreases s@.len(), 5int,
{
    let len = s.unicode_len();
    match clause_or_body(s) {
        Ok((r1, src)) => match operator(r1) {
            Ok((r2, op)) => {
                proof {
                    lemma_clause_or_body_consumes(s@);
                    lemma_operator_consumes(r1@);
                }
                match clause_chain(r2) {
                    Ok((r3, dest)) => Ok((r3, make_connective(op, src, dest))),
                    Err(e) => Err(e.within("joined clauses", len)),
                }
            },
            Err(e) => Err(e.within("joined clauses", len)),
        },
        Err(e) => Err(e.within("joined clauses", len)),
    }
}

/// `quantifier variable : "marker" ( body-of-clause )`.
pub fn variable_clause<'a>(s: &'a str) -> (r: Result<(&'a str, ASTNode), ParseError>)
    ensures
        match r {
            Ok((rem, n)) => grammar::variable_clause(s@) == Some((rem@, n@)),
            Err(e) => grammar::variable_clause(s@) is None && e.frames@.len() >= 1,
        },
    decreases s@.len(), 3int,
{
    let len = s.unicode_len();
    match quantifier(s) {
        Ok((r1, q)) => match alphabetic_w_underscores(r1) {
            Ok((r2, var)) => match token_ws0(r2, ":") {
                Some(r3) => match marker(r3) {
                    Ok((r4, mk)) => match token_ws0(r4, "(") {
                        Some(r5) => {
                            proof {
                                lemma_quantifier_consumes(s@);
                                lemma_ident_consumes(r1@);
                                lemma_colon_consumes(r2@);
                                lemma_marker_consumes(r3@);
                                lemma_open_paren_consumes(r4@);
                            }
                            match clause_chain(r5) {
                                Ok((r6, bd)) => match token_ws0(r6, ")") {
                                    Some(r7) => Ok(
                                        (
                                            r7,
                                            ASTNode::VarIntroduction(
                                                Box::new(
                                                    VariableClause {
                                                        binding: VariableBinding {
                                                            quantifier: q,
                                                            variable: var.to_owned(),
                                                            marker: mk.to_owned(),
                                                        },
                                                        body: bd,
                                                    },
                                                ),
                                            ),
                                        ),
                                    ),
                                    None => Err(ParseError::at("variable clause", len)),
                                },
                                Err(e) => Err(e.within("variable clause", len)),
                            }
                        },
                        None => Err(ParseError::at("variable clause", len)),
                    },
                    Err(e) => Err(e.within("variable clause", len)),
                },
                None => Err(ParseError::at("variable clause", len)),
            },
            Err(e) => Err(e.within("variable clause", len)),
        },
        Err(e) => Err(e.within("variable clause", len)),
    }
}

/// Top-level joined expression: every operand must be a variable clause.
pub fn joined_variable_clauses<'a>(s: &'a str) -> (r: Result<(&'a str, ASTNode), ParseError>)
    ensures
        match r {
            Ok((rem, n)) => grammar::joined_variable_clauses(s@) == Some((rem@, n@)),
            Err(e) => grammar::joined_variable_clauses(s@) is None && e.frames@.len() >= 1,
        },
    decreases s@.len(), 4int,
{
    let len = s.unicode_len();
    match variable_clause(s) {
        Ok((r1, src)) => match operator(r1) {
            Ok((r2, op)) => {
                proof {
                    lemma_variable_clause_consumes(s@);
                    lemma_operator_consumes(r1@);
                }
                match exprs(r2) {
                    Ok((r3, dest)) => Ok((r3, make_connective(op, src, dest))),
                    Err(e) => Err(e.within("joined variable clauses", len)),
                }
            },
            Err(e) => Err(e.within("joined variable clauses", len)),
        },
        Err(e) => Err(e.within("joined variable clauses", len)),
    }
}

/// The top level of a policy body.
fn exprs<'a>(s: &'a str) -> (r: Result<(&'a str, ASTNode), ParseError>)
    ensures
        match r {
            Ok((rem, n)) => grammar::exprs(s@) == Some((rem@, n@)),
            Err(e) => grammar::exprs(s@) is None && e.frames@.len() >= 1,
        },
    decreases s@.len(), 7int,
{
    let len = s.unicode_len();
    match joined_variable_clauses(s) {
        Ok(p) => Ok(p),
        Err(_) => match variable_clause(s) {
            Ok(p) => Ok(p),
            Err(e) => Err(e.within("exprs", len)),
        },
    }
}

proof fn lemma_variable_clause_shape(s: Seq<char>)
    ensures
        grammar::variable_clause(s) matches Some((_, n)) ==> n is VarIntroduction,
{
}

proof fn lemma_joined_variable_clauses_clause_led(s: Seq<char>)
    ensures
        grammar::joined_variable_clauses(s) matches Some((_, n)) ==> crate::ast::clause_led(n),
    decreases s.len(), 4int,
{
    match grammar::variable_clause(s) {
        Some((r1, src)) => {
            lemma_variable_clause_shape(s);
            match grammar::operator(r1) {
                Some((r2, op)) => {
                    if r2.len() < s.len() {
                        lemma_exprs_clause_led(r2);
                    }
                },
                None => {},
            }
        },
        None => {},
    }
}

proof fn lemma_exprs_clause_led(s: Seq<char>)
    ensures
        grammar::exprs(s) matches Some((_, n)) ==> crate::ast::clause_led(n),
    decreases s.len(), 7int,
{
    lemma_joined_variable_clauses_clause_led(s);
    lemma_variable_clause_shape(s);
}

/// A successfully parsed policy is clause-led at the top level: every
/// operand on the top-level spine of connectives is a quantified clause, so
/// a bare, unbound leaf relation cannot stand at the top level of a policy
/// — though the same relation is legal inside any clause's body.
pub proof fn lemma_parse_clause_led(s: Seq<char>)
    ensures
        grammar::parse(s) matches Some(p) ==> crate::ast::clause_led(p.body),
{
    match grammar::scope(s) {
        Some((r1, _)) => {
            lemma_exprs_clause_led(r1);
        },
        None => {},
    }
}

/// Parses a whole policy: the scope, then the top-level expression, with
/// nothing of the input left over. A successful result always carries an
/// empty remainder.
pub fn parse<'a>(s: &'a str) -> (r: Result<(&'a str, PolicyBody), ParseError>)
    ensures
        match r {
            Ok((rem, p)) => grammar::parse(s@) == Some(p@) && rem@.len() == 0
                && crate::ast::clause_led(p@.body),
            Err(e) => grammar::parse(s@) is None && e.frames@.len() >= 1,
        },
{
    proof {
        lemma_parse_clause_led(s@);
    }
    let len = s.unicode_len();
    match scope(s) {
        Ok((r1, sc)) => match exprs(r1) {
            Ok((r2, bd)) => {
                if r2.unicode_len() == 0 {
                    Ok((r2, PolicyBody { scope: sc, body: bd }))
                } else {
                    Err(ParseError::at("parse policy", r2.unicode_len()))
                }
            },
            Err(e) => Err(e.within("parse policy", len)),
        },
        Err(e) => Err(e.within("parse policy", len)),
    }
}

} // verus!
