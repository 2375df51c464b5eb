//! The reader: parses one S-expression form from tokenized text.
//!
//! The reader tokenizes its input up front, then runs a recursive descent
//! over the token sequence.  `(a b c)` becomes the nested pairs
//! `(a . (b . (c . nil)))`; the atoms `true`, `false` and `nil` become the
//! corresponding literal nodes.

use crate::ast::AstNode;
use crate::tokenizer::{next_result_matches, skip_ws_idx, str_eq_str, Token, Tokenizer};
use vstd::prelude::*;

verus! {

/// The outcome of a specification-level parse: a finished node with the
/// position after it, a syntax error carrying its message, or exhausted
/// recursion fuel (never the outcome at the fuel the reader is specified
/// with).
pub enum SpecParse {
    Parsed(AstNode, nat),
    NoParse(Seq<char>),
    Spent,
}

/// The node a lone symbol token parses to: the reserved words `true`,
/// `false` and `nil` become literals, anything else stays a symbol.
pub open spec fn spec_parse_symbol(s: String) -> AstNode {
    if s@ == "true"@ {
        AstNode::Bool(true)
    } else if s@ == "false"@ {
        AstNode::Bool(false)
    } else if s@ == "nil"@ {
        AstNode::Nil
    } else {
        AstNode::Symbol(s)
    }
}

/// The parse of one form starting at token `i`.
pub open spec fn spec_read_form(ts: Seq<Token>, i: nat, fuel: nat) -> SpecParse
    decreases fuel,
{
    if fuel == 0 {
        SpecParse::Spent
    } else if i >= ts.len() {
        SpecParse::NoParse("Unexpected end of input"@)
    } else {
        match ts[i as int] {
            Token::LParen => spec_read_list_tail(ts, (i + 1) as nat, (fuel - 1) as nat),
            Token::RParen => SpecParse::NoParse("Unexpected ')'"@),
            Token::Integer(n) => SpecParse::Parsed(AstNode::Integer(n), (i + 1) as nat),
            Token::Char(c) => SpecParse::Parsed(AstNode::Char(c), (i + 1) as nat),
            Token::Symbol(s) => SpecParse::Parsed(spec_parse_symbol(s), (i + 1) as nat),
        }
    }
}

/// The parse of the remainder of a list, after its opening parenthesis or
/// after an element: a closing parenthesis ends the list with nil, any
/// other form becomes the head of a pair.
pub open spec fn spec_read_list_tail(ts: Seq<Token>, i: nat, fuel: nat) -> SpecParse
    decreases fuel,
{
    if fuel == 0 {
        SpecParse::Spent
    } else if i >= ts.len() {
        SpecParse::NoParse("Unmatched '('"@)
    } else if (ts[i as int] matches Token::RParen) {
        SpecParse::Parsed(AstNode::Nil, (i + 1) as nat)
    } else {
        match spec_read_form(ts, i, (fuel - 1) as nat) {
            SpecParse::Parsed(car, i2) => match spec_read_list_tail(ts, i2, (fuel - 1) as nat) {
                SpecParse::Parsed(cdr, i3) => SpecParse::Parsed(
                    AstNode::Pair { car: Box::new(car), cdr: Box::new(cdr) },
                    i3,
                ),
                o => o,
            },
            o => o,
        }
    }
}

/// Fuel that is always enough to parse a form: at most two recursion steps
/// happen per token consumed.
pub open spec fn parse_fuel(ts: Seq<Token>) -> nat {
    (2 * ts.len() + 2) as nat
}

/// The parse of one form at the standard fuel.
pub open spec fn spec_parse(ts: Seq<Token>, i: nat) -> SpecParse {
    spec_read_form(ts, i, parse_fuel(ts))
}

/// With enough fuel, the parse of a form does not depend on the exact fuel,
/// never runs out, and on success consumes at least one token.
proof fn lemma_form_fuel(ts: Seq<Token>, i: nat, f1: nat, f2: nat)
    requires
        i <= ts.len(),
        f1 >= 2 * (ts.len() - i) + 2,
        f2 >= 2 * (ts.len() - i) + 2,
    ensures
        spec_read_form(ts, i, f1) == spec_read_form(ts, i, f2),
        !(spec_read_form(ts, i, f1) matches SpecParse::Spent),
        spec_read_form(ts, i, f1) matches SpecParse::Parsed(n, j) ==> i < j <= ts.len(),
    decreases ts.len() - i, 1int,
{
    if i < ts.len() {
        match ts[i as int] {
            Token::LParen => {
                lemma_tail_fuel(ts, (i + 1) as nat, (f1 - 1) as nat, (f2 - 1) as nat);
            },
            _ => {},
        }
    }
}

/// With enough fuel, the parse of a list tail does not depend on the exact
/// fuel, never runs out, and on success consumes at least one token.
proof fn lemma_tail_fuel(ts: Seq<Token>, i: nat, f1: nat, f2: nat)
    requires
        i <= ts.len(),
        f1 >= 2 * (ts.len() - i) + 3,
        f2 >= 2 * (ts.len() - i) + 3,
    ensures
        spec_read_list_tail(ts, i, f1) == spec_read_list_tail(ts, i, f2),
        !(spec_read_list_tail(ts, i, f1) matches SpecParse::Spent),
        spec_read_list_tail(ts, i, f1) matches SpecParse::Parsed(n, j) ==> i < j <= ts.len(),
    decreases ts.len() - i, 2int,
{
    if i < ts.len() && !(ts[i as int] matches Token::RParen) {
        lemma_form_fuel(ts, i, (f1 - 1) as nat, (f2 - 1) as nat);
        match spec_read_form(ts, i, (f1 - 1) as nat) {
            SpecParse::Parsed(car, i2) => {
                lemma_tail_fuel(ts, i2, (f1 - 1) as nat, (f2 - 1) as nat);
            },
            _ => {},
        }
    }
}

/// After yielding its first `k` tokens, the tokenizer for `s` stands at
/// position `pos`.
pub open spec fn stream_yields(s: Seq<char>, toks: Seq<Token>, k: nat, pos: nat) -> bool
    decreases k,
{
    if k == 0 {
        pos == 0
    } else {
        exists|p: nat|
            stream_yields(s, toks, (k - 1) as nat, p) && #[trigger] next_result_matches(
                s,
                p,
                Ok::<Option<Token>, String>(Some(toks[k - 1])),
                pos,
            )
    }
}

/// Whether a stream yields its first `k` tokens depends only on those
/// tokens.
proof fn lemma_stream_yields_prefix(s: Seq<char>, t1: Seq<Token>, t2: Seq<Token>, k: nat, pos: nat)
    requires
        k <= t1.len(),
        k <= t2.len(),
        forall|m: int| 0 <= m < k ==> t1[m] == t2[m],
        stream_yields(s, t1, k, pos),
    ensures
        stream_yields(s, t2, k, pos),
    decreases k,
{
    if k > 0 {
        let p = choose|p: nat|
            stream_yields(s, t1, (k - 1) as nat, p) && #[trigger] next_result_matches(
                s,
                p,
                Ok::<Option<Token>, String>(Some(t1[k - 1])),
                pos,
            );
        lemma_stream_yields_prefix(s, t1, t2, (k - 1) as nat, p);
        assert(next_result_matches(s, p, Ok::<Option<Token>, String>(Some(t2[k - 1])), pos));
    }
}

/// The reader: the token sequence of one input text and a cursor into it.
pub struct Parser {
    tokens: Vec<Token>,
    pos: usize,
    failed: Option<String>,
}

impl Parser {
    /// The tokens being parsed.
    pub closed spec fn toks(&self) -> Seq<Token> {
        self.tokens@
    }

    /// The current position in the token sequence.
    pub closed spec fn position(&self) -> nat {
        self.pos as nat
    }

    /// Whether tokenizing the input already failed.
    pub closed spec fn tok_failed(&self) -> bool {
        self.failed is Some
    }

    /// The message of the tokenizer failure, when there was one.
    pub closed spec fn tok_message(&self) -> Seq<char> {
        match self.failed {
            Some(m) => m@,
            None => Seq::empty(),
        }
    }

    /// The cursor always sits inside the token sequence.
    pub closed spec fn wf(&self) -> bool {
        self.pos <= self.tokens@.len()
    }

    /// Creates a parser for a given string, tokenizing it in full.  When
    /// tokenization fails, every later `read_form` reports the failure.
    pub fn new(input: &str) -> (r: Self)
        ensures
            r.wf(),
            r.position() == 0,
            !r.tok_failed() ==> exists|p: nat|
                stream_yields(input@, r.toks(), r.toks().len(), p) && #[trigger] next_result_matches(
                    input@,
                    p,
                    Ok::<Option<Token>, String>(None),
                    skip_ws_idx(input@, p),
                ),
            r.tok_failed() ==> exists|p: nat, bad: Result<Option<Token>, String>, e: nat|
                stream_yields(input@, r.toks(), r.toks().len(), p) && bad is Err
                    && #[trigger] next_result_matches(input@, p, bad, e),
    {
        let ghost s = input@;
        let mut tokenizer = Tokenizer::new(input);
        let mut tokens: Vec<Token> = Vec::new();
        let mut failed: Option<String> = None;
        let mut done = false;
        let ghost mut final_start: nat = 0nat;
        let ghost mut fail_end: nat = 0nat;
        while !done
            invariant
                tokenizer.wf(),
                tokenizer.position() <= s.len(),
                tokenizer.text() == s,
                s == input@,
                !done ==> failed is None,
                !done ==> stream_yields(s, tokens@, tokens@.len(), tokenizer.position()),
                done && failed is None ==> stream_yields(s, tokens@, tokens@.len(), final_start)
                    && next_result_matches(
                    s,
                    final_start,
                    Ok::<Option<Token>, String>(None),
                    skip_ws_idx(s, final_start),
                ),
                done ==> (failed matches Some(m) ==> stream_yields(
                    s,
                    tokens@,
                    tokens@.len(),
                    final_start,
                ) && next_result_matches(
                    s,
                    final_start,
                    Err::<Option<Token>, String>(m),
                    fail_end,
                )),
            decreases s.len() - tokenizer.position() + (if done {
                0int
            } else {
                1int
            }),
        {
            let ghost p_before = tokenizer.position();
            let ghost toks_before = tokens@;
            match tokenizer.next() {
                Ok(Some(t)) => {
                    tokens.push(t);
                    proof {
                        lemma_stream_yields_prefix(
                            s,
                            toks_before,
                            tokens@,
                            toks_before.len(),
                            p_before,
                        );
                        assert(next_result_matches(
                            s,
                            p_before,
                            Ok::<Option<Token>, String>(Some(tokens@[tokens@.len() - 1])),
                            tokenizer.position(),
                        ));
                    }
                },
                Ok(None) => {
                    done = true;
                    proof {
                        final_start = p_before;
                    }
                },
                Err(e) => {
                    failed = Some(e);
                    done = true;
                    proof {
                        final_start = p_before;
                        fail_end = tokenizer.position();
                    }
                },
            }
        }
        Parser { tokens, pos: 0, failed }
    }

    /// Parses a single form.  On success the cursor stands after the form;
    /// a malformed prefix or an earlier tokenizer failure is an error.
    pub fn read_form(&mut self) -> (r: Result<AstNode, String>)
        requires
            old(self).wf(),
        ensures
            final(self).wf(),
            final(self).toks() == old(self).toks(),
            final(self).tok_failed() == old(self).tok_failed(),
            final(self).tok_message() == old(self).tok_message(),
            old(self).tok_failed() ==> (r matches Err(m) && m@ == old(self).tok_message()),
            !old(self).tok_failed() ==> match spec_parse(old(self).toks(), old(self).position()) {
                SpecParse::Parsed(node, j) => r == Ok::<AstNode, String>(node)
                    && final(self).position() == j,
                SpecParse::NoParse(msg) => r matches Err(m) && m@ == msg,
                SpecParse::Spent => false,
            },
            r is Ok ==> old(self).position() < final(self).position(),
        decreases old(self).toks().len() - old(self).position(), 1int,
    {
        match &self.failed {
            Some(msg) => {
                return Err(msg.clone());
            },
            None => {},
        }
        let ghost ts = self.tokens@;
        let ghost i = self.pos as nat;
        proof {
            lemma_form_fuel(ts, i, parse_fuel(ts), parse_fuel(ts));
        }
        if self.pos >= self.tokens.len() {
            return Err("Unexpected end of input".to_owned());
        }
        proof {
            if (ts[i as int] matches Token::LParen) {
                lemma_tail_fuel(ts, (i + 1) as nat, (parse_fuel(ts) - 1) as nat, parse_fuel(ts));
            }
        }
        match &self.tokens[self.pos] {
            Token::LParen => {
                self.pos = self.pos + 1;
                self.read_list_tail()
            },
            Token::RParen => {
                self.pos = self.pos + 1;
                Err("Unexpected ')'".to_owned())
            },
            Token::Integer(n) => {
                let value = *n;
                self.pos = self.pos + 1;
                Ok(AstNode::Integer(value))
            },
            Token::Char(c) => {
                let value = *c;
                self.pos = self.pos + 1;
                Ok(AstNode::Char(value))
            },
            Token::Symbol(name) => {
                let node = parse_symbol(name);
                self.pos = self.pos + 1;
                Ok(node)
            },
        }
    }

    /// Parses the remainder of a list, after its opening parenthesis or
    /// after an element.
    fn read_list_tail(&mut self) -> (r: Result<AstNode, String>)
        requires
            old(self).wf(),
            !old(self).tok_failed(),
            old(self).position() >= 1,
        ensures
            final(self).wf(),
            final(self).toks() == old(self).toks(),
            final(self).tok_failed() == old(self).tok_failed(),
            match spec_read_list_tail(
                old(self).toks(),
                old(self).position(),
                parse_fuel(old(self).toks()),
            ) {
                SpecParse::Parsed(node, j) => r == Ok::<AstNode, String>(node)
                    && final(self).position() == j,
                SpecParse::NoParse(msg) => r matches Err(m) && m@ == msg,
                SpecParse::Spent => false,
            },
            r is Ok ==> old(self).position() < final(self).position(),
        decreases old(self).toks().len() - old(self).position(), 2int,
    {
        let ghost ts = self.tokens@;
        let ghost i = self.pos as nat;
        let ghost fuel = parse_fuel(ts);
        proof {
            lemma_tail_fuel(ts, i, fuel, fuel);
        }
        if self.pos >= self.tokens.len() {
            return Err("Unmatched '('".to_owned());
        }
        match &self.tokens[self.pos] {
            Token::RParen => {
                self.pos = self.pos + 1;
                return Ok(AstNode::Nil);
            },
            _ => {},
        }
        proof {
            lemma_form_fuel(ts, i, (fuel - 1) as nat, fuel);
        }
        let car = match self.read_form() {
            Ok(n) => n,
            Err(e) => {
                return Err(e);
            },
        };
        let ghost i2 = self.pos as nat;
        proof {
            lemma_tail_fuel(ts, i2, (fuel - 1) as nat, fuel);
        }
        let cdr = match self.read_list_tail() {
            Ok(n) => n,
            Err(e) => {
                return Err(e);
            },
        };
        Ok(AstNode::Pair { car: Box::new(car), cdr: Box::new(cdr) })
    }
}

/// Converts a symbol token into the correct node: the reserved words
/// `true`, `false` and `nil` become literals.
fn parse_symbol(s: &String) -> (r: AstNode)
    ensures
        r == spec_parse_symbol(*s),
{
    if str_eq_str(s.as_str(), "true") {
        AstNode::Bool(true)
    } else if str_eq_str(s.as_str(), "false") {
        AstNode::Bool(false)
    } else if str_eq_str(s.as_str(), "nil") {
        AstNode::Nil
    } else {
        AstNode::Symbol(s.clone())
    }
}

} // verus!
