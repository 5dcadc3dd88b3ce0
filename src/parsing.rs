//! Incremental parser for layout-sensitive source: it carries one tree, the best
//! reading of the tokens so far, and extends it one token at a time.

use vstd::prelude::*;
use vstd::string::*;

use crate::position::LineCol;
use crate::tokenising::{
    Token, TokenCluster, TokenView, cluster_view, first_token, lemma_scan_bounds, scan, scan_all,
};

verus! {

#[derive(Debug, Clone, PartialEq, Eq)]
pub struct IdentifierNode {
    pub text: String,
    pub location: LineCol,
}

#[derive(Debug, Clone, PartialEq, Eq)]
pub struct StringNode {
    pub text: String,
    pub location: LineCol,
}

#[derive(Debug, Clone, PartialEq, Eq)]
pub enum ValueNode {
    Identifier(IdentifierNode),
    String(StringNode),
    /// Stands where no value has been parsed yet.
    Hole,
}

#[derive(Debug, Clone, PartialEq, Eq)]
pub struct AssignmentNode {
    pub assignee: ValueNode,
    pub expression: ExpressionNode,
}

#[derive(Debug, Clone, PartialEq, Eq)]
pub enum StatementNode {
    Assignment(AssignmentNode),
}

#[derive(Debug, Clone, PartialEq, Eq)]
pub struct BinaryOpsNode {
    pub operand: IdentifierNode,
    pub left: ValueNode,
    pub right: ValueNode,
}

#[derive(Debug, Clone, PartialEq, Eq)]
pub enum ExpressionNode {
    Value(ValueNode),
    BinaryOps(BinaryOpsNode),
}

#[derive(Debug, Clone, PartialEq, Eq)]
pub enum AstRoot {
    Expression(ExpressionNode),
    Statement(StatementNode),
}

/// A value as a mathematical object.
pub enum ValueView {
    Identifier(Seq<char>, LineCol),
    String(Seq<char>, LineCol),
    Hole,
}

/// An expression as a mathematical object.
pub enum ExprView {
    Value(ValueView),
    BinaryOps(Seq<char>, LineCol, ValueView, ValueView),
}

/// A tree as a mathematical object; the only statement is an assignment.
pub enum AstView {
    Expression(ExprView),
    Assignment(ValueView, ExprView),
}

impl View for ValueNode {
    type V = ValueView;

    open spec fn view(&self) -> ValueView {
        match self {
            ValueNode::Identifier(n) => ValueView::Identifier(n.text@, n.location),
            ValueNode::String(n) => ValueView::String(n.text@, n.location),
            ValueNode::Hole => ValueView::Hole,
        }
    }
}

impl View for ExpressionNode {
    type V = ExprView;

    open spec fn view(&self) -> ExprView {
        match self {
            ExpressionNode::Value(v) => ExprView::Value(v@),
            ExpressionNode::BinaryOps(b) => ExprView::BinaryOps(
                b.operand.text@,
                b.operand.location,
                b.left@,
                b.right@,
            ),
        }
    }
}

impl View for AstRoot {
    type V = AstView;

    open spec fn view(&self) -> AstView {
        match self {
            AstRoot::Expression(e) => AstView::Expression(e@),
            AstRoot::Statement(StatementNode::Assignment(a)) => AstView::Assignment(
                a.assignee@,
                a.expression@,
            ),
        }
    }
}

/// The tree a parse starts from: an expression that is only a hole.
pub open spec fn empty_tree() -> AstView {
    AstView::Expression(ExprView::Value(ValueView::Hole))
}

impl Default for AstRoot {
    fn default() -> (r: Self)
        ensures
            r@ == empty_tree(),
    {
        AstRoot::Expression(ExpressionNode::Value(ValueNode::Hole))
    }
}

/// Why a parsing step could not go on. The step leaves the parser as it was.
#[derive(Debug, Clone, Copy, PartialEq, Eq, Structural)]
pub enum ParseError {
    /// A token's captured text does not fit its kind: text on a kind that
    /// never captures, or none on one that always does.
    MalformedToken { token: Token },
    /// A token of a kind that has no rule of its own.
    UnhandledToken { token: Token, location: LineCol },
    /// The current tree and the next token's kind have no rule together.
    UnhandledCombination { lookahead: Token, location: LineCol },
    /// The location would no longer fit in a machine word.
    LocationOverflow { location: LineCol },
}

/// The parser as a mathematical object.
pub struct ParserView {
    pub tokens: Seq<TokenView>,
    pub cursor: int,
    pub line_col: LineCol,
    pub state: AstView,
}

/// A parser at the start of `tokens`.
pub open spec fn initial(tokens: Seq<TokenView>) -> ParserView {
    ParserView { tokens, cursor: 0, line_col: LineCol(1, 0), state: empty_tree() }
}

/// `p` with the cursor one token further on.
pub open spec fn advanced(p: ParserView) -> ParserView {
    ParserView { cursor: p.cursor + 1, ..p }
}

/// One call of `consume`: folds the next token into `p`.
pub open spec fn consume_spec(p: ParserView) -> Result<ParserView, ParseError> {
    if p.cursor < 0 || p.cursor >= p.tokens.len() {
        Ok(p)
    } else {
        let t = p.tokens[p.cursor];
        let lc = p.line_col;
        if t.0 == Token::Identifier || t.0 == Token::Symbols || t.0 == Token::String {
            match t.1 {
                None => Err(ParseError::MalformedToken { token: t.0 }),
                Some(x) => {
                    let width = if t.0 == Token::String {
                        x.len() + 2int
                    } else {
                        x.len() as int
                    };
                    if lc.1 + width > usize::MAX {
                        Err(ParseError::LocationOverflow { location: lc })
                    } else {
                        let loc = LineCol(lc.0, (lc.1 + width) as usize);
                        let v = if t.0 == Token::String {
                            ValueView::String(x, loc)
                        } else {
                            ValueView::Identifier(x, loc)
                        };
                        Ok(
                            ParserView {
                                line_col: loc,
                                state: AstView::Expression(ExprView::Value(v)),
                                ..advanced(p)
                            },
                        )
                    }
                },
            }
        } else if t.0 == Token::Whitespace || t.0 == Token::Newline {
            if t.1.is_some() {
                Err(ParseError::MalformedToken { token: t.0 })
            } else if t.0 == Token::Whitespace {
                if lc.1 + 1 > usize::MAX {
                    Err(ParseError::LocationOverflow { location: lc })
                } else {
                    Ok(ParserView { line_col: LineCol(lc.0, (lc.1 + 1) as usize), ..advanced(p) })
                }
            } else {
                if lc.0 + 1 > usize::MAX {
                    Err(ParseError::LocationOverflow { location: lc })
                } else {
                    Ok(ParserView { line_col: LineCol((lc.0 + 1) as usize, 0), ..advanced(p) })
                }
            }
        } else {
            Err(ParseError::UnhandledToken { token: t.0, location: lc })
        }
    }
}

/// One call of `incrementally_build`: extends the tree of `p` by the next token.
pub open spec fn build_spec(p: ParserView) -> Result<ParserView, ParseError> {
    if p.cursor < 0 || p.cursor >= p.tokens.len() {
        Ok(p)
    } else {
        let k = p.tokens[p.cursor].0;
        match p.state {
            AstView::Expression(ExprView::Value(ValueView::Hole)) => consume_spec(p),
            AstView::Expression(ExprView::Value(ValueView::Identifier(x, loc))) if k
                == Token::EqualSign => match consume_spec(advanced(p)) {
                Ok(q) => match q.state {
                    AstView::Expression(ExprView::Value(v)) => Ok(
                        ParserView {
                            state: AstView::Assignment(
                                ValueView::Identifier(x, loc),
                                ExprView::Value(v),
                            ),
                            ..q
                        },
                    ),
                    _ => Ok(q),
                },
                Err(e) => Err(e),
            },
            _ => Err(ParseError::UnhandledCombination { lookahead: k, location: p.line_col }),
        }
    }
}

pub open spec fn value_has_hole(v: ValueView) -> bool {
    v is Hole
}

pub open spec fn expr_has_hole(e: ExprView) -> bool {
    match e {
        ExprView::Value(v) => value_has_hole(v),
        ExprView::BinaryOps(_, _, l, r) => value_has_hole(l) || value_has_hole(r),
    }
}

/// Whether a hole stands anywhere in the tree.
pub open spec fn has_hole(a: AstView) -> bool {
    match a {
        AstView::Expression(e) => expr_has_hole(e),
        AstView::Assignment(v, e) => value_has_hole(v) || expr_has_hole(e),
    }
}

/// The kinds that become a value of the tree.
pub open spec fn is_value_kind(k: Token) -> bool {
    k == Token::Identifier || k == Token::Symbols || k == Token::String
}

/// `n` calls of `incrementally_build` from `p`, stopping at the first error.
pub open spec fn build_steps(p: ParserView, n: nat) -> Result<ParserView, ParseError>
    decreases n,
{
    if n == 0 {
        Ok(p)
    } else {
        match build_spec(p) {
            Ok(q) => build_steps(q, (n - 1) as nat),
            Err(e) => Err(e),
        }
    }
}

/// `n` calls of `consume` from `p`, stopping at the first error.
pub open spec fn consume_steps(p: ParserView, n: nat) -> Result<ParserView, ParseError>
    decreases n,
{
    if n == 0 {
        Ok(p)
    } else {
        match consume_spec(p) {
            Ok(q) => consume_steps(q, (n - 1) as nat),
            Err(e) => Err(e),
        }
    }
}

/// What holds of every parser reached from the start: the tree has a hole only
/// while it is still the empty tree and no value token has been passed.
pub open spec fn hole_invariant(p: ParserView) -> bool {
    &&& 0 <= p.cursor <= p.tokens.len()
    &&& has_hole(p.state) ==> {
        &&& p.state == empty_tree()
        &&& forall|i: int| 0 <= i < p.cursor ==> !is_value_kind(#[trigger] p.tokens[i].0)
    }
}

proof fn lemma_consume_keeps_value(p: ParserView)
    requires
        0 <= p.cursor <= p.tokens.len(),
        !has_hole(p.state),
        p.state is Expression,
        consume_spec(p) is Ok,
    ensures
        !has_hole(consume_spec(p)->Ok_0.state),
        consume_spec(p)->Ok_0.state is Expression,
        consume_spec(p)->Ok_0.tokens == p.tokens,
        p.cursor <= consume_spec(p)->Ok_0.cursor <= p.tokens.len(),
{
}

proof fn lemma_build_keeps_hole_invariant(p: ParserView)
    requires
        hole_invariant(p),
        build_spec(p) is Ok,
    ensures
        hole_invariant(build_spec(p)->Ok_0),
        build_spec(p)->Ok_0.tokens == p.tokens,
{
    if 0 <= p.cursor < p.tokens.len() {
        let k = p.tokens[p.cursor].0;
        match p.state {
            AstView::Expression(ExprView::Value(ValueView::Hole)) => {
                let q = consume_spec(p);
                assert(q is Ok);
                let q = q->Ok_0;
                if has_hole(q.state) {
                    assert(!is_value_kind(k));
                    assert forall|i: int| 0 <= i < q.cursor implies !is_value_kind(
                        #[trigger] q.tokens[i].0,
                    ) by {
                        if i < p.cursor {
                            assert(!is_value_kind(p.tokens[i].0));
                        }
                    }
                }
            },
            AstView::Expression(ExprView::Value(ValueView::Identifier(x, loc))) => {
                if k == Token::EqualSign {
                    lemma_consume_keeps_value(advanced(p));
                }
            },
            _ => {},
        }
    }
}

proof fn lemma_build_steps_keep_hole_invariant(p: ParserView, n: nat)
    requires
        hole_invariant(p),
        build_steps(p, n) is Ok,
    ensures
        hole_invariant(build_steps(p, n)->Ok_0),
        build_steps(p, n)->Ok_0.tokens == p.tokens,
    decreases n,
{
    if n > 0 {
        lemma_build_keeps_hole_invariant(p);
        lemma_build_steps_keep_hole_invariant(build_spec(p)->Ok_0, (n - 1) as nat);
    }
}

/// A parse that ran through all of its tokens without an error, among which
/// there is at least one name, symbol run or string, ends with a tree that
/// holds no hole.
pub proof fn lemma_hole_elimination(tokens: Seq<TokenView>, n: nat)
    requires
        exists|i: int| 0 <= i < tokens.len() && is_value_kind(#[trigger] tokens[i].0),
        build_steps(initial(tokens), n) is Ok,
        build_steps(initial(tokens), n)->Ok_0.cursor == tokens.len(),
    ensures
        !has_hole(build_steps(initial(tokens), n)->Ok_0.state),
{
    lemma_build_steps_keep_hole_invariant(initial(tokens), n);
    let q = build_steps(initial(tokens), n)->Ok_0;
    if has_hole(q.state) {
        let i = choose|i: int| 0 <= i < tokens.len() && is_value_kind(#[trigger] tokens[i].0);
        assert(!is_value_kind(q.tokens[i].0));
    }
}

/// The kinds whose whole width `consume` adds to the column.
pub open spec fn is_inline_kind(k: Token) -> bool {
    is_value_kind(k) || k == Token::Whitespace
}

proof fn lemma_scan_all_unfold(t: Seq<char>)
    requires
        t.len() > 0,
    ensures
        1 <= scan(t).1 <= t.len(),
        scan_all(t) == seq![first_token(t)] + scan_all(t.subrange(scan(t).1, t.len() as int)),
{
    lemma_scan_bounds(t);
}

proof fn lemma_inline_width(t: Seq<char>)
    requires
        t.len() > 0,
        is_inline_kind(scan(t).0),
    ensures
        scan(t).0 == Token::Whitespace ==> scan(t).1 == 1 && first_token(t).1 is None,
        scan(t).0 == Token::String ==> first_token(t).1 == Some(
            t.subrange(1, scan(t).1 - 1),
        ) && scan(t).1 >= 2,
        scan(t).0 == Token::Identifier || scan(t).0 == Token::Symbols ==> first_token(t).1 == Some(
            t.subrange(0, scan(t).1),
        ),
{
    lemma_scan_bounds(t);
}

proof fn lemma_consume_run(p: ParserView, t: Seq<char>)
    requires
        0 <= p.cursor,
        p.cursor + scan_all(t).len() <= p.tokens.len(),
        forall|i: int| 0 <= i < scan_all(t).len() ==> p.tokens[p.cursor + i] == #[trigger] scan_all(t)[i],
        forall|i: int| 0 <= i < scan_all(t).len() ==> is_inline_kind(#[trigger] scan_all(t)[i].0),
        p.line_col.1 + t.len() <= usize::MAX,
    ensures
        consume_steps(p, scan_all(t).len()) is Ok,
        consume_steps(p, scan_all(t).len())->Ok_0.line_col == LineCol(
            p.line_col.0,
            (p.line_col.1 + t.len()) as usize,
        ),
    decreases t.len(),
{
    if t.len() > 0 {
        lemma_scan_all_unfold(t);
        let n = scan(t).1;
        let rest = t.subrange(n, t.len() as int);
        assert(scan_all(t)[0] == first_token(t));
        assert(p.tokens[p.cursor] == first_token(t));
        lemma_inline_width(t);
        let q = consume_spec(p);
        assert(q is Ok);
        let q = q->Ok_0;
        assert(q.line_col == LineCol(p.line_col.0, (p.line_col.1 + n) as usize));
        assert(q.cursor == p.cursor + 1);
        assert forall|i: int| 0 <= i < scan_all(rest).len() implies q.tokens[q.cursor + i]
            == #[trigger] scan_all(rest)[i] by {
            assert(scan_all(t)[i + 1] == scan_all(rest)[i]);
        }
        assert forall|i: int| 0 <= i < scan_all(rest).len() implies is_inline_kind(
            #[trigger] scan_all(rest)[i].0,
        ) by {
            assert(scan_all(t)[i + 1] == scan_all(rest)[i]);
        }
        lemma_consume_run(q, rest);
        assert(scan_all(t).len() == scan_all(rest).len() + 1);
    }
}

/// Consuming every token of a text made only of names, symbol runs, strings
/// and single spaces, from the start, ends on line 1 at the column equal to the
/// text's length.
pub proof fn lemma_column_counts_characters(s: Seq<char>)
    requires
        s.len() <= usize::MAX,
        forall|i: int| 0 <= i < scan_all(s).len() ==> is_inline_kind(#[trigger] scan_all(s)[i].0),
    ensures
        consume_steps(initial(scan_all(s)), scan_all(s).len()) is Ok,
        consume_steps(initial(scan_all(s)), scan_all(s).len())->Ok_0.line_col == LineCol(
            1,
            s.len() as usize,
        ),
{
    lemma_consume_run(initial(scan_all(s)), s);
}

/// Holds the tokens, a cursor into them, the location reached so far and the
/// tree built so far.
pub struct Parser {
    tokens: Vec<TokenCluster>,
    cursor: usize,
    line_col: LineCol,
    pub state: AstRoot,
}

fn copy_text(t: &Option<String>) -> (r: Option<String>)
    ensures
        r == *t,
{
    match t {
        Some(s) => Some(s.clone()),
        None => None,
    }
}

fn copy_ident(n: &IdentifierNode) -> (r: IdentifierNode)
    ensures
        r == *n,
{
    IdentifierNode { text: n.text.clone(), location: n.location }
}

impl Parser {
    pub closed spec fn view(&self) -> ParserView {
        ParserView {
            tokens: self.tokens@.map_values(|t: TokenCluster| cluster_view(t)),
            cursor: self.cursor as int,
            line_col: self.line_col,
            state: self.state@,
        }
    }

    pub closed spec fn wf(&self) -> bool {
        self.cursor <= self.tokens.len()
    }

    /// A parser at the start of `tokens`, with an empty tree at line 1, column 0.
    pub fn new(tokens: Vec<TokenCluster>) -> (r: Self)
        ensures
            r.wf(),
            r.view() == initial(tokens@.map_values(|t: TokenCluster| cluster_view(t))),
    {
        Parser { tokens, cursor: 0, line_col: LineCol(1, 0), state: AstRoot::default() }
    }

    /// Takes the next token, if any, and folds it into the parser: a name or
    /// a symbol run, or a string, becomes the tree; a space or a newline only
    /// moves the location. On an error nothing changes.
    pub fn consume(&mut self) -> (r: Result<(), ParseError>)
        requires
            old(self).wf(),
        ensures
            final(self).wf(),
            match consume_spec(old(self).view()) {
                Ok(v) => r is Ok && final(self).view() == v,
                Err(e) => r == Err::<(), ParseError>(e) && final(self).view() == old(self).view(),
            },
    {
        if self.cursor >= self.tokens.len() {
            return Ok(());
        }
        let ghost t = cluster_view(self.tokens@[self.cursor as int]);
        let kind = self.tokens[self.cursor].0;
        let text = copy_text(&self.tokens[self.cursor].1);
        assert(t.0 == kind);
        let lc = self.line_col;
        if kind == Token::Identifier || kind == Token::Symbols || kind == Token::String {
            match text {
                None => Err(ParseError::MalformedToken { token: kind }),
                Some(val) => {
                    let n = val.as_str().unicode_len();
                    if kind == Token::String {
                        if lc.1 > usize::MAX - 2 || n > usize::MAX - 2 - lc.1 {
                            return Err(ParseError::LocationOverflow { location: lc });
                        }
                        let location = self.line_col.surrounding_offset(n);
                        self.state = AstRoot::Expression(
                            ExpressionNode::Value(ValueNode::String(StringNode { text: val, location })),
                        );
                    } else {
                        if n > usize::MAX - lc.1 {
                            return Err(ParseError::LocationOverflow { location: lc });
                        }
                        let location = self.line_col.add_offset(n);
                        self.state = AstRoot::Expression(
                            ExpressionNode::Value(
                                ValueNode::Identifier(IdentifierNode { text: val, location }),
                            ),
                        );
                    }
                    self.cursor = self.cursor + 1;
                    Ok(())
                },
            }
        } else if kind == Token::Whitespace || kind == Token::Newline {
            if text.is_some() {
                Err(ParseError::MalformedToken { token: kind })
            } else if kind == Token::Whitespace {
                if lc.1 == usize::MAX {
                    return Err(ParseError::LocationOverflow { location: lc });
                }
                self.line_col.add_offset(1);
                self.cursor = self.cursor + 1;
                Ok(())
            } else {
                if lc.0 == usize::MAX {
                    return Err(ParseError::LocationOverflow { location: lc });
                }
                self.line_col.newline_offset();
                self.cursor = self.cursor + 1;
                Ok(())
            }
        } else {
            Err(ParseError::UnhandledToken { token: kind, location: lc })
        }
    }

    /// Extends the tree by the next token. From the empty tree this is
    /// `consume`. From a name followed by `=`, it drops the `=`, consumes the
    /// next token and makes an assignment of that value to the name. Any other
    /// tree and next kind together is reported as unhandled. Once the tokens are
    /// used up nothing changes. On an error nothing changes.
    pub fn incrementally_build(&mut self) -> (r: Result<(), ParseError>)
        requires
            old(self).wf(),
        ensures
            final(self).wf(),
            match build_spec(old(self).view()) {
                Ok(v) => r is Ok && final(self).view() == v,
                Err(e) => r == Err::<(), ParseError>(e) && final(self).view() == old(self).view(),
            },
    {
        if self.cursor >= self.tokens.len() {
            return Ok(());
        }
        let kind = self.tokens[self.cursor].0;
        let is_hole = match &self.state {
            AstRoot::Expression(ExpressionNode::Value(ValueNode::Hole)) => true,
            _ => false,
        };
        if is_hole {
            return self.consume();
        }
        let ident = match &self.state {
            AstRoot::Expression(ExpressionNode::Value(ValueNode::Identifier(n))) => Some(
                copy_ident(n),
            ),
            _ => None,
        };
        if let Some(assignee) = ident {
            if kind == Token::EqualSign {
                let ghost p0 = self.view();
                self.cursor = self.cursor + 1;
                assert(self.view() == advanced(p0));
                match self.consume() {
                    Err(e) => {
                        self.cursor = self.cursor - 1;
                        assert(self.view() == p0);
                        return Err(e);
                    },
                    Ok(()) => {
                        let mut st = AstRoot::default();
                        std::mem::swap(&mut st, &mut self.state);
                        match st {
                            AstRoot::Expression(ExpressionNode::Value(v)) => {
                                self.state = AstRoot::Statement(
                                    StatementNode::Assignment(
                                        AssignmentNode {
                                            assignee: ValueNode::Identifier(assignee),
                                            expression: ExpressionNode::Value(v),
                                        },
                                    ),
                                );
                            },
                            other => {
                                self.state = other;
                            },
                        }
                        return Ok(());
                    },
                }
            }
        }
        Err(ParseError::UnhandledCombination { lookahead: kind, location: self.line_col })
    }
}

} // verus!
