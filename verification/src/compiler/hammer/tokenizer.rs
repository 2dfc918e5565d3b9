//! The grammar tree of the second compiler and the tokenizer that walks it:
//! each node of the tree expects a token of a type, and leads either to the
//! tokens that may follow (its sons) or to groups, which stand for the tree of
//! another kind of construct.
use vstd::prelude::*;
use crate::text::{str_eq, copy_str, new_string, push_char, chars_of, opt_int};

verus! {

/// The kinds of tokens: primitive ones, read from the text, and groups.
#[derive(PartialEq, Eq, Structural, Clone, Copy, Debug, Hash)]
pub enum TokenType {
    Ident,
    Number,
    Type,
    Symbol,
    Operator,
    Program,
    Instruction,
    Value,
    ComplexIdent,
    Expression,
    Brackets,
    Tuple,
    SerieExpression,
    Affectation,
}

/// The kinds read from the text.
pub open spec fn is_primitive(t: TokenType) -> bool {
    t == TokenType::Ident || t == TokenType::Type || t == TokenType::Symbol || t == TokenType::Number
        || t == TokenType::Operator
}

/// Whether a kind is read from the text.
pub fn primitive(t: TokenType) -> (r: bool)
    ensures
        r == is_primitive(t),
{
    match t {
        TokenType::Ident | TokenType::Type | TokenType::Symbol | TokenType::Number | TokenType::Operator => true,
        _ => false,
    }
}

/// The constraints of a node by their characters.
pub open spec fn cons_view(c: Seq<&'static str>) -> Seq<Seq<char>> {
    c.map_values(|x: &'static str| x@)
}

/// The types of the language.
pub open spec fn spec_type_list() -> Seq<Seq<char>> {
    seq!["int"@, "char"@]
}

/// The operators of the language.
pub open spec fn spec_operator_tokens() -> Seq<Seq<char>> {
    seq!["+"@, "-"@, "%"@, "*"@, "/"@, "<"@, "<="@, ">"@, ">="@, "=="@, "!="@, "||"@, "&&"@, "=s"@]
}

/// The texts a token of a kind may be, by default: the types, the operators,
/// or anything (no constraint).
pub open spec fn default_cons(t: TokenType) -> Seq<Seq<char>> {
    if t == TokenType::Type {
        spec_type_list()
    } else if t == TokenType::Operator {
        spec_operator_tokens()
    } else {
        seq![]
    }
}

/// The texts a token of a kind may be, by default.
pub fn get_default_constraint(token_type: TokenType) -> (r: Vec<&'static str>)
    ensures
        cons_view(r@) == default_cons(token_type),
{
    let r: Vec<&'static str> = match token_type {
        TokenType::Type => vec!["int", "char"],
        TokenType::Operator => vec!["+", "-", "%", "*", "/", "<", "<=", ">", ">=", "==", "!=", "||", "&&", "=s"],
        _ => Vec::new(),
    };
    assert(cons_view(r@) =~= default_cons(token_type));
    r
}

/// A token read: its kind and its text.
pub struct Token {
    pub token_type: TokenType,
    pub string: String,
}

impl Token {
    /// A token.
    pub fn new(token_type: TokenType, string: String) -> (r: Token)
        ensures
            r.token_type == token_type,
            r.string@ == string@,
    {
        Token { token_type, string }
    }
}

/// A node of the grammar tree.
pub struct Node {
    pub type_token: TokenType,
    pub groups: Vec<Node>,
    pub sons: Vec<Node>,
    pub can_end: bool,
    pub constraints: Vec<&'static str>,
    pub consider_garbage: bool,
}

/// The sons are primitive, the groups are not.
pub open spec fn branches_ok(groups: Seq<Node>, sons: Seq<Node>) -> bool {
    &&& forall|i: int| 0 <= i < sons.len() ==> is_primitive(#[trigger] sons[i].type_token)
    &&& forall|i: int| 0 <= i < groups.len() ==> !is_primitive(#[trigger] groups[i].type_token)
}

/// A property of a node.
pub type NodeP = spec_fn(Node) -> bool;

/// A node of that kind, end mark, constraints and garbage mark, whose groups
/// and sons have the properties given, one each.
pub open spec fn shape(
    n: Node,
    t: TokenType,
    can_end: bool,
    cons: Seq<Seq<char>>,
    garbage: bool,
    gs: Seq<NodeP>,
    ss: Seq<NodeP>,
) -> bool {
    &&& n.type_token == t
    &&& n.can_end == can_end
    &&& cons_view(n.constraints@) == cons
    &&& n.consider_garbage == garbage
    &&& n.groups@.len() == gs.len()
    &&& forall|i: int| 0 <= i < gs.len() ==> (gs[i])(#[trigger] n.groups@[i])
    &&& n.sons@.len() == ss.len()
    &&& forall|i: int| 0 <= i < ss.len() ==> (ss[i])(#[trigger] n.sons@[i])
}

/// A leaf of a kind, with its default constraints.
pub open spec fn leaf_p(t: TokenType) -> NodeP {
    |n: Node| shape(n, t, true, default_cons(t), false, seq![], seq![])
}

/// A leaf with its own constraints.
pub open spec fn leaf_c_p(t: TokenType, c: Seq<Seq<char>>) -> NodeP {
    |n: Node| shape(n, t, true, c, false, seq![], seq![])
}

/// A node that cannot end a group.
pub open spec fn new_p(t: TokenType, gs: Seq<NodeP>, ss: Seq<NodeP>) -> NodeP {
    |n: Node| shape(n, t, false, default_cons(t), false, gs, ss)
}

/// A node that can end a group.
pub open spec fn new_end_p(t: TokenType, gs: Seq<NodeP>, ss: Seq<NodeP>) -> NodeP {
    |n: Node| shape(n, t, true, default_cons(t), false, gs, ss)
}

/// A node with its own constraints, that cannot end a group.
pub open spec fn new_c_p(t: TokenType, gs: Seq<NodeP>, ss: Seq<NodeP>, c: Seq<Seq<char>>) -> NodeP {
    |n: Node| shape(n, t, false, c, false, gs, ss)
}

/// A node with its own constraints that can end a group and reads on
/// without skipping spaces.
pub open spec fn new_end_c_p(t: TokenType, gs: Seq<NodeP>, ss: Seq<NodeP>, c: Seq<Seq<char>>) -> NodeP {
    |n: Node| shape(n, t, true, c, true, gs, ss)
}

/// The end of an instruction: `;`.
pub open spec fn end_inst_p() -> NodeP {
    leaf_c_p(TokenType::Symbol, seq![";"@])
}

impl Node {
    /// The node, once its sons are checked primitive and its groups not.
    pub fn check_son(self) -> (r: Node)
        requires
            branches_ok(self.groups@, self.sons@),
        ensures
            r == self,
    {
        self
    }

    /// A node that cannot end a group.
    pub fn new(type_token: TokenType, groups: Vec<Node>, sons: Vec<Node>) -> (r: Node)
        requires
            branches_ok(groups@, sons@),
        ensures
            r.type_token == type_token,
            r.groups == groups,
            r.sons == sons,
            !r.can_end,
            cons_view(r.constraints@) == default_cons(type_token),
            !r.consider_garbage,
    {
        Node {
            type_token,
            groups,
            sons,
            can_end: false,
            constraints: get_default_constraint(type_token),
            consider_garbage: false,
        }.check_son()
    }

    /// A leaf: it ends its group.
    pub fn leaf(type_token: TokenType) -> (r: Node)
        ensures
            shape(r, type_token, true, default_cons(type_token), false, seq![], seq![]),
    {
        Node {
            type_token,
            sons: Vec::new(),
            groups: Vec::new(),
            can_end: true,
            constraints: get_default_constraint(type_token),
            consider_garbage: false,
        }
    }

    /// A node that can end a group.
    pub fn new_end(type_token: TokenType, groups: Vec<Node>, sons: Vec<Node>) -> (r: Node)
        requires
            branches_ok(groups@, sons@),
        ensures
            r.type_token == type_token,
            r.groups == groups,
            r.sons == sons,
            r.can_end,
            cons_view(r.constraints@) == default_cons(type_token),
            !r.consider_garbage,
    {
        Node {
            type_token,
            groups,
            sons,
            can_end: true,
            constraints: get_default_constraint(type_token),
            consider_garbage: false,
        }.check_son()
    }

    /// A node with its own constraints, that cannot end a group.
    pub fn new_c(type_token: TokenType, groups: Vec<Node>, sons: Vec<Node>, constraints: Vec<&'static str>) -> (r: Node)
        requires
            branches_ok(groups@, sons@),
        ensures
            r.type_token == type_token,
            r.groups == groups,
            r.sons == sons,
            !r.can_end,
            r.constraints == constraints,
            !r.consider_garbage,
    {
        Node { type_token, groups, sons, can_end: false, constraints, consider_garbage: false }.check_son()
    }

    /// A leaf with its own constraints.
    pub fn leaf_c(type_token: TokenType, constraints: Vec<&'static str>) -> (r: Node)
        ensures
            shape(r, type_token, true, cons_view(constraints@), false, seq![], seq![]),
            r.constraints == constraints,
    {
        Node { type_token, sons: Vec::new(), groups: Vec::new(), can_end: true, constraints, consider_garbage: false }
    }

    /// A node with its own constraints that can end a group and reads on
    /// without skipping spaces.
    pub fn new_end_c(type_token: TokenType, groups: Vec<Node>, sons: Vec<Node>, constraints: Vec<&'static str>) -> (r: Node)
        requires
            branches_ok(groups@, sons@),
        ensures
            r.type_token == type_token,
            r.groups == groups,
            r.sons == sons,
            r.can_end,
            r.constraints == constraints,
            r.consider_garbage,
    {
        Node { type_token, groups, sons, can_end: true, constraints, consider_garbage: true }.check_son()
    }

    /// The end of an instruction: `;`.
    pub fn end_inst() -> (r: Node)
        ensures
            (end_inst_p())(r),
    {
        let r = Node::leaf_c(TokenType::Symbol, vec![";"]);
        assert(cons_view(r.constraints@) =~= seq![";"@]);
        r
    }
}


/// `( SerieExpression )`, the parenthesis closing at once when empty.
pub open spec fn tuple_p() -> NodeP {
    new_p(
        TokenType::Tuple,
        seq![],
        seq![
            new_c_p(
                TokenType::Symbol,
                seq![new_p(TokenType::SerieExpression, seq![], seq![leaf_c_p(TokenType::Symbol, seq![")"@])])],
                seq![leaf_c_p(TokenType::Symbol, seq![")"@])],
                seq!["("@],
            ),
        ],
    )
}

/// The tree of a tuple.
fn tuple_group() -> (r: Node)
    ensures
        (tuple_p())(r),
{
    let close1 = Node::leaf_c(TokenType::Symbol, vec![")"]);
    let serie = Node::new(TokenType::SerieExpression, vec![], vec![close1]);
    let close2 = Node::leaf_c(TokenType::Symbol, vec![")"]);
    let open = Node::new_c(TokenType::Symbol, vec![serie], vec![close2], vec!["("]);
    let r = Node::new(TokenType::Tuple, vec![], vec![open]);
    proof {
        assert(cons_view(open.constraints@) =~= seq!["("@]);
        assert(cons_view(close1.constraints@) =~= seq![")"@]);
        assert(cons_view(close2.constraints@) =~= seq![")"@]);
    }
    r
}


/// `Expression` then, optionally, `, SerieExpression`.
pub open spec fn serie_p() -> NodeP {
    new_p(
        TokenType::SerieExpression,
        seq![
            new_end_p(
                TokenType::Expression,
                seq![],
                seq![
                    new_c_p(
                        TokenType::Symbol,
                        seq![leaf_p(TokenType::SerieExpression)],
                        seq![],
                        seq![","@],
                    ),
                ],
            ),
        ],
        seq![],
    )
}

/// The tree of a series of expressions.
fn serie_group() -> (r: Node)
    ensures
        (serie_p())(r),
{
    let inner = Node::leaf(TokenType::SerieExpression);
    let comma = Node::new_c(TokenType::Symbol, vec![inner], vec![], vec![","]);
    let exp = Node::new_end(TokenType::Expression, vec![], vec![comma]);
    let r = Node::new(TokenType::SerieExpression, vec![exp], vec![]);
    proof {
        assert(cons_view(comma.constraints@) =~= seq![","@]);
    }
    r
}

/// An identifier followed by brackets or a tuple, or `$` and a complex
/// identifier.
pub open spec fn complex_ident_p() -> NodeP {
    new_p(
        TokenType::ComplexIdent,
        seq![],
        seq![
            new_end_p(TokenType::Ident, seq![leaf_p(TokenType::Brackets), leaf_p(TokenType::Tuple)], seq![]),
            new_c_p(TokenType::Symbol, seq![leaf_p(TokenType::ComplexIdent)], seq![], seq!["$"@]),
        ],
    )
}

/// The tree of a complex identifier.
fn complex_ident_group() -> (r: Node)
    ensures
        (complex_ident_p())(r),
{
    let b = Node::leaf(TokenType::Brackets);
    let t = Node::leaf(TokenType::Tuple);
    let ident = Node::new_end(TokenType::Ident, vec![b, t], vec![]);
    let c = Node::leaf(TokenType::ComplexIdent);
    let dollar = Node::new_c(TokenType::Symbol, vec![c], vec![], vec!["$"]);
    let r = Node::new(TokenType::ComplexIdent, vec![], vec![ident, dollar]);
    proof {
        assert(cons_view(dollar.constraints@) =~= seq!["$"@]);
    }
    r
}

/// `[ Expression ]`, more brackets possibly following.
pub open spec fn brackets_p() -> NodeP {
    new_p(
        TokenType::Brackets,
        seq![],
        seq![
            new_c_p(
                TokenType::Symbol,
                seq![
                    new_p(
                        TokenType::Expression,
                        seq![],
                        seq![new_end_c_p(TokenType::Symbol, seq![leaf_p(TokenType::Brackets)], seq![], seq!["]"@])],
                    ),
                ],
                seq![],
                seq!["["@],
            ),
        ],
    )
}

/// The tree of brackets.
fn brackets_group() -> (r: Node)
    ensures
        (brackets_p())(r),
{
    let b = Node::leaf(TokenType::Brackets);
    let close = Node::new_end_c(TokenType::Symbol, vec![b], vec![], vec!["]"]);
    let exp = Node::new(TokenType::Expression, vec![], vec![close]);
    let open = Node::new_c(TokenType::Symbol, vec![exp], vec![], vec!["["]);
    let r = Node::new(TokenType::Brackets, vec![], vec![open]);
    proof {
        assert(cons_view(close.constraints@) =~= seq!["]"@]);
        assert(cons_view(open.constraints@) =~= seq!["["@]);
    }
    r
}

/// A complex identifier or a number.
pub open spec fn value_p() -> NodeP {
    new_p(TokenType::Value, seq![leaf_p(TokenType::ComplexIdent)], seq![leaf_p(TokenType::Number)])
}

/// The tree of a value.
fn value_group() -> (r: Node)
    ensures
        (value_p())(r),
{
    let c = Node::leaf(TokenType::ComplexIdent);
    let n = Node::leaf(TokenType::Number);
    Node::new(TokenType::Value, vec![c], vec![n])
}

/// A value, possibly followed by an operator and an expression, or an
/// expression between parentheses.
pub open spec fn expression_p() -> NodeP {
    new_p(
        TokenType::Expression,
        seq![
            new_end_p(
                TokenType::Value,
                seq![],
                seq![new_p(TokenType::Operator, seq![leaf_p(TokenType::Expression)], seq![])],
            ),
        ],
        seq![
            new_c_p(
                TokenType::Symbol,
                seq![
                    new_p(
                        TokenType::Expression,
                        seq![],
                        seq![
                            new_end_c_p(
                                TokenType::Symbol,
                                seq![],
                                seq![new_p(TokenType::Operator, seq![leaf_p(TokenType::Expression)], seq![])],
                                seq![")"@],
                            ),
                        ],
                    ),
                ],
                seq![],
                seq!["("@],
            ),
        ],
    )
}

/// The tree of an expression.
fn expression_group() -> (r: Node)
    ensures
        (expression_p())(r),
{
    let e1 = Node::leaf(TokenType::Expression);
    let op1 = Node::new(TokenType::Operator, vec![e1], vec![]);
    let value = Node::new_end(TokenType::Value, vec![], vec![op1]);
    let e2 = Node::leaf(TokenType::Expression);
    let op2 = Node::new(TokenType::Operator, vec![e2], vec![]);
    let close = Node::new_end_c(TokenType::Symbol, vec![], vec![op2], vec![")"]);
    let inner = Node::new(TokenType::Expression, vec![], vec![close]);
    let open = Node::new_c(TokenType::Symbol, vec![inner], vec![], vec!["("]);
    let r = Node::new(TokenType::Expression, vec![value], vec![open]);
    proof {
        assert(cons_view(close.constraints@) =~= seq![")"@]);
        assert(cons_view(open.constraints@) =~= seq!["("@]);
    }
    r
}

/// `=` and an expression.
pub open spec fn affectation_p() -> NodeP {
    new_p(
        TokenType::Affectation,
        seq![],
        seq![new_c_p(TokenType::Operator, seq![leaf_p(TokenType::Expression)], seq![], seq!["="@])],
    )
}

/// The tree of an affectation.
fn affectation_group() -> (r: Node)
    ensures
        (affectation_p())(r),
{
    let e = Node::leaf(TokenType::Expression);
    let eq = Node::new_c(TokenType::Operator, vec![e], vec![], vec!["="]);
    let r = Node::new(TokenType::Affectation, vec![], vec![eq]);
    proof {
        assert(cons_view(eq.constraints@) =~= seq!["="@]);
    }
    r
}

/// A complex identifier followed by an affectation or a tuple, and `;`; or
/// `}`; or a declaration: a type, a name, an optional affectation and `;`.
pub open spec fn instruction_p() -> NodeP {
    new_p(
        TokenType::Instruction,
        seq![
            new_p(
                TokenType::ComplexIdent,
                seq![
                    new_p(TokenType::Affectation, seq![], seq![end_inst_p()]),
                    new_p(TokenType::Tuple, seq![], seq![end_inst_p()]),
                ],
                seq![],
            ),
        ],
        seq![
            leaf_c_p(TokenType::Symbol, seq!["}"@]),
            new_p(
                TokenType::Type,
                seq![],
                seq![
                    new_p(
                        TokenType::Ident,
                        seq![new_p(TokenType::Affectation, seq![], seq![end_inst_p()])],
                        seq![end_inst_p()],
                    ),
                ],
            ),
        ],
    )
}

/// The tree of an instruction.
fn instruction_group() -> (r: Node)
    ensures
        (instruction_p())(r),
{
    let aff1 = Node::new(TokenType::Affectation, vec![], vec![Node::end_inst()]);
    let tup = Node::new(TokenType::Tuple, vec![], vec![Node::end_inst()]);
    let cident = Node::new(TokenType::ComplexIdent, vec![aff1, tup], vec![]);
    let close = Node::leaf_c(TokenType::Symbol, vec!["}"]);
    let aff2 = Node::new(TokenType::Affectation, vec![], vec![Node::end_inst()]);
    let ident = Node::new(TokenType::Ident, vec![aff2], vec![Node::end_inst()]);
    let ty = Node::new(TokenType::Type, vec![], vec![ident]);
    let r = Node::new(TokenType::Instruction, vec![cident], vec![close, ty]);
    proof {
        assert(cons_view(close.constraints@) =~= seq!["}"@]);
    }
    r
}

/// Instructions, or line feeds, one after the other.
pub open spec fn program_p() -> NodeP {
    new_p(
        TokenType::Program,
        seq![new_p(TokenType::Instruction, seq![leaf_p(TokenType::Program)], seq![])],
        seq![new_c_p(TokenType::Symbol, seq![leaf_p(TokenType::Program)], seq![], seq!["\n"@])],
    )
}

/// The tree of a program.
fn program_group() -> (r: Node)
    ensures
        (program_p())(r),
{
    let p1 = Node::leaf(TokenType::Program);
    let inst = Node::new(TokenType::Instruction, vec![p1], vec![]);
    let p2 = Node::leaf(TokenType::Program);
    let lf = Node::new_c(TokenType::Symbol, vec![p2], vec![], vec!["\n"]);
    let r = Node::new(TokenType::Program, vec![inst], vec![lf]);
    proof {
        assert(cons_view(lf.constraints@) =~= seq!["\n"@]);
    }
    r
}

/// The kinds of the groups, in the order the table holds them.
pub open spec fn group_kinds() -> Seq<TokenType> {
    seq![
        TokenType::Tuple,
        TokenType::SerieExpression,
        TokenType::ComplexIdent,
        TokenType::Brackets,
        TokenType::Value,
        TokenType::Expression,
        TokenType::Affectation,
        TokenType::Instruction,
        TokenType::Program,
    ]
}

/// The grammar: the tree of each group, in the order of `group_kinds`.
pub open spec fn grammar_is(gm: Seq<Node>) -> bool {
    &&& gm.len() == 9
    &&& (tuple_p())(gm[0])
    &&& (serie_p())(gm[1])
    &&& (complex_ident_p())(gm[2])
    &&& (brackets_p())(gm[3])
    &&& (value_p())(gm[4])
    &&& (expression_p())(gm[5])
    &&& (affectation_p())(gm[6])
    &&& (instruction_p())(gm[7])
    &&& (program_p())(gm[8])
}

/// The tokenizer: the tree of each group.
pub struct Tokenizer {
    pub group_map: Vec<Node>,
}

impl Tokenizer {
    /// A tokenizer with the grammar of the language.
    pub fn new() -> (r: Tokenizer)
        ensures
            grammar_is(r.group_map@),
    {
        let mut res = Tokenizer { group_map: Vec::new() };
        res.init_token_groups();
        res
    }

    /// Builds the tree of each group; a tree built before is replaced by the
    /// one of its group.
    pub fn init_token_groups(&mut self)
        ensures
            grammar_is(final(self).group_map@),
    {
        self.group_map = Vec::new();
        self.group_map.push(tuple_group());
        self.group_map.push(serie_group());
        self.group_map.push(complex_ident_group());
        self.group_map.push(brackets_group());
        self.group_map.push(value_group());
        self.group_map.push(expression_group());
        self.group_map.push(affectation_group());
        self.group_map.push(instruction_group());
        self.group_map.push(program_group());
    }
}


/// A tree where every node has primitive sons and groups that are not,
/// each group being a kind that the table holds.
pub open spec fn tree_wf(n: Node) -> bool
    decreases n,
{
    &&& branches_ok(n.groups@, n.sons@)
    &&& forall|i: int| 0 <= i < n.groups@.len() ==> group_kinds().contains(#[trigger] n.groups@[i].type_token)
    &&& forall|i: int| 0 <= i < n.sons@.len() ==> tree_wf(#[trigger] n.sons@[i])
    &&& forall|i: int| 0 <= i < n.groups@.len() ==> tree_wf(#[trigger] n.groups@[i])
}

/// Every tree of the grammar is well formed: sons are primitive, groups are
/// not and each group has its tree in the table, at every level.
pub proof fn lemma_grammar_wf(gm: Seq<Node>)
    requires
        grammar_is(gm),
    ensures
        forall|i: int| 0 <= i < gm.len() ==> tree_wf(#[trigger] gm[i]),
        forall|i: int| 0 <= i < gm.len() ==> gm[i].type_token == #[trigger] group_kinds()[i],
{
    reveal_with_fuel(tree_wf, 8);
    assert(group_kinds().contains(TokenType::SerieExpression)) by { assert(group_kinds()[1] == TokenType::SerieExpression); }
    assert(group_kinds().contains(TokenType::ComplexIdent)) by { assert(group_kinds()[2] == TokenType::ComplexIdent); }
    assert(group_kinds().contains(TokenType::Brackets)) by { assert(group_kinds()[3] == TokenType::Brackets); }
    assert(group_kinds().contains(TokenType::Value)) by { assert(group_kinds()[4] == TokenType::Value); }
    assert(group_kinds().contains(TokenType::Expression)) by { assert(group_kinds()[5] == TokenType::Expression); }
    assert(group_kinds().contains(TokenType::Affectation)) by { assert(group_kinds()[6] == TokenType::Affectation); }
    assert(group_kinds().contains(TokenType::Instruction)) by { assert(group_kinds()[7] == TokenType::Instruction); }
    assert(group_kinds().contains(TokenType::Program)) by { assert(group_kinds()[8] == TokenType::Program); }
    assert(group_kinds().contains(TokenType::Tuple)) by { assert(group_kinds()[0] == TokenType::Tuple); }
    assert(tree_wf(gm[0]));
    assert(tree_wf(gm[1]));
    assert(tree_wf(gm[2]));
    assert(tree_wf(gm[3]));
    assert(tree_wf(gm[4]));
    assert(tree_wf(gm[5]));
    assert(tree_wf(gm[6]));
    assert(tree_wf(gm[7]));
    assert(tree_wf(gm[8]));
}


/// The code of a character cut to its low byte, as the tokenizer reads it.
pub open spec fn low_byte(c: char) -> int {
    (c as u32) as int % 256
}

/// A digit (by the low byte of its code).
pub open spec fn spec_is_number(c: char) -> bool {
    48 <= low_byte(c) < 58
}

/// A letter (by the low byte of its code: `A` to `z` but `[` to `` ` ``).
pub open spec fn spec_is_letter(c: char) -> bool {
    65 <= low_byte(c) <= 122 && !(91 <= low_byte(c) <= 96)
}

/// A space or a line feed, skipped between tokens.
pub open spec fn is_garbage(c: char) -> bool {
    c == ' ' || c == '\n'
}

/// A character of an operator.
pub open spec fn spec_is_op_char(c: char) -> bool {
    c == '+' || c == '-' || c == '%' || c == '*' || c == '/' || c == '<' || c == '>' || c == '='
}

/// Any other character: a sign.
pub open spec fn spec_is_sign(c: char) -> bool {
    !spec_is_number(c) && !spec_is_letter(c) && !is_garbage(c) && !spec_is_op_char(c)
}

/// Whether the character is a digit.
pub fn is_number(c: char) -> (r: bool)
    ensures
        r == spec_is_number(c),
{
    let b: u32 = (c as u32) % 256;
    b < 58 && b >= 48
}

/// Whether the character is a letter.
pub fn is_letter(c: char) -> (r: bool)
    ensures
        r == spec_is_letter(c),
{
    let b: u32 = (c as u32) % 256;
    b >= 65 && b <= 122 && !(b >= 91 && b <= 96)
}

/// Whether the character belongs to an operator.
pub fn is_operator(c: char) -> (r: bool)
    ensures
        r == spec_is_op_char(c),
{
    c == '+' || c == '-' || c == '%' || c == '*' || c == '/' || c == '<' || c == '>' || c == '='
}

/// Whether the character is a sign.
pub fn is_sign(c: char) -> (r: bool)
    ensures
        r == spec_is_sign(c),
{
    !is_number(c) && !is_letter(c) && !(c == ' ' || c == '\n') && !is_operator(c)
}

/// The classes of characters that start a token.
#[derive(Clone, Copy)]
pub enum CharClass {
    Number,
    Letter,
    Sign,
    Operator,
    LetterOrNumber,
}

/// Whether `c` continues a token of the class.
pub open spec fn in_class(k: CharClass, c: char) -> bool {
    match k {
        CharClass::Number => spec_is_number(c),
        CharClass::Letter => spec_is_letter(c),
        CharClass::Sign => spec_is_sign(c),
        CharClass::Operator => spec_is_op_char(c),
        CharClass::LetterOrNumber => spec_is_letter(c) || spec_is_number(c),
    }
}

/// The kinds of tokens a class of characters may give.
pub open spec fn class_kinds(k: CharClass) -> Seq<TokenType> {
    match k {
        CharClass::Number => seq![TokenType::Number],
        CharClass::Letter => seq![TokenType::Ident, TokenType::Type],
        CharClass::Sign => seq![TokenType::Symbol],
        CharClass::Operator => seq![TokenType::Operator],
        CharClass::LetterOrNumber => seq![TokenType::Ident],
    }
}

/// The class that starts with `c`, if any (spaces and line feeds start
/// none).
pub open spec fn class_of(c: char) -> Option<CharClass> {
    if spec_is_number(c) {
        Some(CharClass::Number)
    } else if spec_is_letter(c) {
        Some(CharClass::Letter)
    } else if spec_is_sign(c) {
        Some(CharClass::Sign)
    } else if spec_is_op_char(c) {
        Some(CharClass::Operator)
    } else {
        None
    }
}

/// The position after the spaces and line feeds from `pos`.
pub open spec fn skip_g(s: Seq<char>, pos: int) -> int
    decreases s.len() - pos,
{
    if 0 <= pos < s.len() && is_garbage(s[pos]) {
        skip_g(s, pos + 1)
    } else {
        pos
    }
}

/// The end of the run of characters of the class from `pos`.
pub open spec fn run_end(s: Seq<char>, pos: int, k: CharClass) -> int
    decreases s.len() - pos,
{
    if 0 <= pos < s.len() && in_class(k, s[pos]) {
        run_end(s, pos + 1, k)
    } else {
        pos
    }
}

/// The paths whose first node is of one of the kinds.
pub open spec fn keep_paths(ps: Seq<Seq<Node>>, kinds: Seq<TokenType>) -> Seq<Seq<Node>>
    decreases ps.len(),
{
    if ps.len() == 0 {
        ps
    } else if kinds.contains(ps.last()[0].type_token) {
        keep_paths(ps.drop_last(), kinds).push(ps.last())
    } else {
        keep_paths(ps.drop_last(), kinds)
    }
}

/// The next token from `pos` (where a character stands): the paths left, the
/// text read and the position after it. `None`: no token is defined (a word
/// ends the text); `Err`: no path accepts the class of the character.
pub open spec fn spec_next_token(ps: Seq<Seq<Node>>, s: Seq<char>, pos: int) -> Option<Result<(Seq<Seq<Node>>, Seq<char>, int), Seq<char>>> {
    match class_of(s[pos]) {
        None => Some(Ok((ps, seq![], pos))),
        Some(k) => {
            let p1 = keep_paths(ps, class_kinds(k));
            if p1.len() == 0 {
                Some(Err("FAILED TO TOKENIZE"@))
            } else {
                let e1 = if k == CharClass::Sign { pos + 1 } else { run_end(s, pos + 1, k) };
                if k == CharClass::Letter {
                    if e1 >= s.len() {
                        None
                    } else if spec_is_number(s[e1]) {
                        let p2 = keep_paths(p1, seq![TokenType::Ident]);
                        if p2.len() > 0 {
                            let e2 = run_end(s, e1 + 1, CharClass::LetterOrNumber);
                            Some(Ok((p2, s.subrange(pos, e2), e2)))
                        } else {
                            Some(Ok((p2, s.subrange(pos, e1), e1)))
                        }
                    } else {
                        Some(Ok((p1, s.subrange(pos, e1), e1)))
                    }
                } else {
                    Some(Ok((p1, s.subrange(pos, e1), e1)))
                }
            }
        },
    }
}

/// The priority of a kind of token when several paths accept it.
pub open spec fn priority(t: TokenType) -> Option<u8> {
    if t == TokenType::Ident || t == TokenType::Number {
        Some(1)
    } else if t == TokenType::Type {
        Some(2)
    } else {
        None
    }
}

/// `a < b` on priorities, an absent one being the lowest.
pub open spec fn prio_lt(a: Option<u8>, b: Option<u8>) -> bool {
    match (a, b) {
        (None, Some(_)) => true,
        (Some(x), Some(y)) => x < y,
        _ => false,
    }
}

/// A node accepts the text: it has no constraint, or the text is one of them.
pub open spec fn accepts(n: Node, token: Seq<char>) -> bool {
    cons_view(n.constraints@).len() == 0 || cons_view(n.constraints@).contains(token)
}

/// The path chosen for a token among those from `i` on, `res` being the best
/// before: the first that accepts it, replaced by a later one of strictly
/// higher priority.
pub open spec fn best_path(ps: Seq<Seq<Node>>, token: Seq<char>, i: int, res: Option<int>) -> Option<int>
    decreases ps.len() - i,
{
    if i < 0 || i >= ps.len() {
        res
    } else if accepts(ps[i][0], token) && (res is None || prio_lt(
        priority(ps[res->0][0].type_token),
        priority(ps[i][0].type_token),
    )) {
        best_path(ps, token, i + 1, Some(i))
    } else {
        best_path(ps, token, i + 1, res)
    }
}

/// The rank of a group: each group's tree leads only to groups of lower rank.
pub open spec fn rank(t: TokenType) -> nat {
    match t {
        TokenType::ComplexIdent | TokenType::Brackets | TokenType::Tuple | TokenType::Affectation => 1,
        TokenType::Value | TokenType::Instruction => 2,
        TokenType::Expression | TokenType::Program => 3,
        TokenType::SerieExpression => 4,
        _ => 0,
    }
}

/// Where the tree of a group stands in the table.
pub open spec fn group_index(t: TokenType) -> int {
    match t {
        TokenType::Tuple => 0,
        TokenType::SerieExpression => 1,
        TokenType::ComplexIdent => 2,
        TokenType::Brackets => 3,
        TokenType::Value => 4,
        TokenType::Expression => 5,
        TokenType::Affectation => 6,
        TokenType::Instruction => 7,
        _ => 8,
    }
}

/// The paths from a node to the tokens it may read next: each son alone,
/// then, for each group, the paths of the group's tree followed by the group
/// node.
pub open spec fn son_paths(gm: Seq<Node>, node: Node, bound: nat) -> Seq<Seq<Node>>
    decreases bound, 1int, 0int,
{
    node.sons@.map_values(|n: Node| seq![n]) + group_paths(gm, node.groups@, 0, bound)
}

/// The paths through the groups from `i` on.
pub open spec fn group_paths(gm: Seq<Node>, groups: Seq<Node>, i: int, bound: nat) -> Seq<Seq<Node>>
    decreases bound, 0int, groups.len() - i,
{
    if i < 0 || i >= groups.len() {
        seq![]
    } else {
        let g = groups[i];
        let sub = if rank(g.type_token) < bound && 0 <= group_index(g.type_token) < gm.len() {
            son_paths(gm, gm[group_index(g.type_token)], rank(g.type_token))
        } else {
            seq![]
        };
        sub.map_values(|p: Seq<Node>| p.push(g)) + group_paths(gm, groups, i + 1, bound)
    }
}

/// Every group of the node is a kind that the table holds, of rank below
/// `bound`.
pub open spec fn ranked(n: Node, bound: nat) -> bool {
    forall|j: int|
        0 <= j < n.groups@.len() ==> group_kinds().contains(#[trigger] n.groups@[j].type_token) && rank(
            n.groups@[j].type_token,
        ) < bound
}

/// Where each kind of group stands in the table, and that its rank is at
/// most four.
pub proof fn lemma_group_index(t: TokenType)
    requires
        group_kinds().contains(t),
    ensures
        0 <= group_index(t) < 9,
        group_kinds()[group_index(t)] == t,
        rank(t) < 5,
{
    let i = choose|i: int| 0 <= i < group_kinds().len() && group_kinds()[i] == t;
    assert(0 <= i < 9);
}

/// The tree of each group in the table leads only to groups of lower rank:
/// walking the groups always ends.
pub proof fn lemma_grammar_ranked(gm: Seq<Node>)
    requires
        grammar_is(gm),
    ensures
        forall|i: int| 0 <= i < gm.len() ==> #[trigger] ranked(gm[i], rank(group_kinds()[i])),
{
    assert(group_kinds()[5] == TokenType::Expression);
    assert(group_kinds()[2] == TokenType::ComplexIdent);
    assert(group_kinds()[4] == TokenType::Value);
    assert(group_kinds()[7] == TokenType::Instruction);
    assert(ranked(gm[0], rank(group_kinds()[0])));
    assert(ranked(gm[1], rank(group_kinds()[1])));
    assert(ranked(gm[2], rank(group_kinds()[2])));
    assert(ranked(gm[3], rank(group_kinds()[3])));
    assert(ranked(gm[4], rank(group_kinds()[4])));
    assert(ranked(gm[5], rank(group_kinds()[5])));
    assert(ranked(gm[6], rank(group_kinds()[6])));
    assert(ranked(gm[7], rank(group_kinds()[7])));
    assert(ranked(gm[8], rank(group_kinds()[8])));
}

/// Where the tree of a group stands in the table.
pub fn group_position(t: TokenType) -> (r: usize)
    ensures
        r == group_index(t),
{
    match t {
        TokenType::Tuple => 0,
        TokenType::SerieExpression => 1,
        TokenType::ComplexIdent => 2,
        TokenType::Brackets => 3,
        TokenType::Value => 4,
        TokenType::Expression => 5,
        TokenType::Affectation => 6,
        TokenType::Instruction => 7,
        _ => 8,
    }
}

/// The paths as sequences of nodes.
pub open spec fn paths_view(ps: Seq<Vec<&Node>>) -> Seq<Seq<Node>> {
    ps.map_values(|p: Vec<&Node>| p@.map_values(|n: &Node| *n))
}

/// Every path holds a node, and every node of a path is a well formed tree.
pub open spec fn paths_wf(ps: Seq<Seq<Node>>) -> bool {
    forall|k: int|
        0 <= k < ps.len() ==> #[trigger] ps[k].len() > 0 && forall|m: int|
            0 <= m < ps[k].len() ==> tree_wf(#[trigger] ps[k][m])
}

impl Tokenizer {
    /// The paths from a node to the tokens it may read next.
    fn get_son_array<'a>(&'a self, node: &'a Node, Ghost(bound): Ghost<nat>) -> (r: Vec<Vec<&'a Node>>)
        requires
            grammar_is(self.group_map@),
            ranked(*node, bound),
            tree_wf(*node),
        ensures
            paths_view(r@) == son_paths(self.group_map@, *node, bound),
            paths_wf(paths_view(r@)),
        decreases bound,
    {
        let ghost gm = self.group_map@;
        proof {
            lemma_grammar_wf(gm);
            lemma_grammar_ranked(gm);
        }
        let mut res: Vec<Vec<&'a Node>> = Vec::new();
        let mut i: usize = 0;
        while i < node.sons.len()
            invariant
                i <= node.sons@.len(),
                tree_wf(*node),
                paths_view(res@) == node.sons@.take(i as int).map_values(|n: Node| seq![n]),
                paths_wf(paths_view(res@)),
            decreases node.sons@.len() - i,
        {
            let mut p: Vec<&'a Node> = Vec::new();
            p.push(&node.sons[i]);
            let ghost before = res@;
            res.push(p);
            proof {
                assert(p@.map_values(|n: &Node| *n) =~= seq![node.sons@[i as int]]);
                assert(paths_view(res@) =~= paths_view(before).push(seq![node.sons@[i as int]]));
                assert(node.sons@.take(i + 1).map_values(|n: Node| seq![n]) =~= node.sons@.take(
                    i as int,
                ).map_values(|n: Node| seq![n]).push(seq![node.sons@[i as int]]));
            }
            i += 1;
        }
        proof {
            assert(node.sons@.take(i as int) =~= node.sons@);
        }
        let mut j: usize = 0;
        while j < node.groups.len()
            invariant
                j <= node.groups@.len(),
                grammar_is(gm),
                gm == self.group_map@,
                ranked(*node, bound),
                tree_wf(*node),
                forall|i: int| 0 <= i < gm.len() ==> tree_wf(#[trigger] gm[i]),
                forall|i: int| 0 <= i < gm.len() ==> gm[i].type_token == #[trigger] group_kinds()[i],
                forall|i: int| 0 <= i < gm.len() ==> #[trigger] ranked(gm[i], rank(group_kinds()[i])),
                paths_view(res@) + group_paths(gm, node.groups@, j as int, bound) == son_paths(gm, *node, bound),
                paths_wf(paths_view(res@)),
            decreases node.groups@.len() - j,
        {
            let g: &'a Node = &node.groups[j];
            let t = g.type_token;
            let gi = group_position(t);
            proof {
                lemma_group_index(t);
            }
            let ghost sub_spec = son_paths(gm, gm[gi as int], rank(t));
            let mut sub = self.get_son_array(&self.group_map[gi], Ghost(rank(t)));
            let ghost sub0 = sub@;
            let mut k: usize = 0;
            while k < sub.len()
                invariant
                    k <= sub@.len(),
                    sub@.len() == sub0.len(),
                    paths_wf(paths_view(sub0)),
                    tree_wf(*g),
                    forall|m: int| 0 <= m < k ==> #[trigger] sub@[m]@ == sub0[m]@.push(g),
                    forall|m: int| k <= m < sub@.len() ==> #[trigger] sub@[m] == sub0[m],
                decreases sub@.len() - k,
            {
                sub[k].push(g);
                k += 1;
            }
            let ghost before = res@;
            let ghost sub1 = sub@;
            res.append(&mut sub);
            proof {
                let pushed = sub_spec.map_values(|p: Seq<Node>| p.push(node.groups@[j as int]));
                assert(paths_view(sub0) == sub_spec);
                assert(res@ == before + sub1);
                assert(paths_view(res@) =~= paths_view(before) + pushed) by {
                    assert(paths_view(res@).len() == before.len() + sub0.len());
                    assert(pushed.len() == sub0.len());
                    assert forall|m: int| 0 <= m < before.len() implies #[trigger] paths_view(res@)[m]
                        == paths_view(before)[m] by {
                        assert(res@[m] == before[m]);
                    }
                    assert forall|mm: int| before.len() <= mm < paths_view(res@).len() implies #[trigger] paths_view(res@)[mm]
                        == (paths_view(before) + pushed)[mm] by {
                        let m = mm - before.len();
                        assert(res@[before.len() + m] == sub1[m]);
                        assert(res@[before.len() + m]@ == sub0[m]@.push(g));
                        assert(paths_view(sub0)[m] == sub0[m]@.map_values(|n: &Node| *n));
                        assert(res@[before.len() + m]@.map_values(|n: &Node| *n) =~= sub0[m]@.map_values(
                            |n: &Node| *n,
                        ).push(*g));
                        assert(pushed[m] == sub_spec[m].push(node.groups@[j as int]));
                        assert(paths_view(res@)[before.len() + m] == res@[before.len() + m]@.map_values(
                            |n: &Node| *n,
                        ));
                    }
                }
                assert(group_paths(gm, node.groups@, j as int, bound) == pushed + group_paths(
                    gm,
                    node.groups@,
                    j + 1,
                    bound,
                ));
                assert(paths_view(before) + pushed + group_paths(gm, node.groups@, j + 1, bound) =~= paths_view(
                    before,
                ) + (pushed + group_paths(gm, node.groups@, j + 1, bound)));
                assert forall|m: int| 0 <= m < paths_view(res@).len() implies #[trigger] paths_view(res@)[m].len() > 0
                    && forall|q: int|
                    0 <= q < paths_view(res@)[m].len() ==> tree_wf(#[trigger] paths_view(res@)[m][q]) by {
                    if m >= before.len() {
                        let mm = m - before.len();
                        assert(paths_view(res@)[m] == pushed[mm]);
                        assert(paths_view(sub0)[mm] == sub_spec[mm]);
                    }
                }
            }
            j += 1;
        }
        proof {
            assert(group_paths(gm, node.groups@, j as int, bound) == Seq::<Seq<Node>>::empty());
            assert(paths_view(res@) + Seq::<Seq<Node>>::empty() =~= paths_view(res@));
        }
        res
    }
}

/// The tokens read, each by its kind and its text.
pub open spec fn tokens_view(t: Seq<Token>) -> Seq<(TokenType, Seq<char>)> {
    t.map_values(|k: Token| (k.token_type, k.string@))
}

/// What walking the tree from a node reads of the text from `pos`: the
/// tokens, each with the kind of the node that took it, and the position
/// after them; or the error. `None`: the walk panics (a word ends the text).
/// Spaces and line feeds are skipped first unless the node reads them; no
/// character left, or no token that a node accepts, ends the walk at a node
/// that can end its group and is an error elsewhere.
pub open spec fn spec_curse(gm: Seq<Node>, node: Node, s: Seq<char>, pos: int) -> Option<
    Result<(Seq<(TokenType, Seq<char>)>, int), Seq<char>>,
>
    decreases s.len() - pos, 1int, 0int,
{
    let p0 = if node.consider_garbage {
        pos
    } else {
        skip_g(s, pos)
    };
    if p0 < 0 || p0 >= s.len() {
        Some(Ok((seq![], p0)))
    } else {
        match spec_next_token(son_paths(gm, node, 5), s, p0) {
            None => None,
            Some(Err(e)) => if node.can_end {
                Some(Ok((seq![], p0)))
            } else {
                Some(Err(e))
            },
            Some(Ok((ps, tok, p1))) => {
                let chosen = if tok.len() == 0 {
                    None
                } else {
                    best_path(ps, tok, 0, None)
                };
                match chosen {
                    None => if node.can_end {
                        Some(Ok((seq![], p0)))
                    } else {
                        Some(Err("CAN T BUILD THE TREE"@))
                    },
                    Some(i) => match spec_curse_path(gm, ps[i], 0, s, p1, pos) {
                        Some(Ok((toks, p2))) => Some(Ok((seq![(ps[i][0].type_token, tok)] + toks, p2))),
                        other => other,
                    },
                }
            },
        }
    }
}

/// The walk from each node of a path in turn, from its `i`-th node, from
/// `p`; a walk from a node starts after the text read where the path was
/// chosen (at `lo`), and within the text.
pub open spec fn spec_curse_path(gm: Seq<Node>, path: Seq<Node>, i: int, s: Seq<char>, p: int, lo: int) -> Option<
    Result<(Seq<(TokenType, Seq<char>)>, int), Seq<char>>,
>
    decreases s.len() - lo, 0int, path.len() - i,
{
    if i < 0 || i >= path.len() {
        Some(Ok((seq![], p)))
    } else if p <= lo || p > s.len() {
        None
    } else {
        match spec_curse(gm, path[i], s, p) {
            Some(Ok((t1, p2))) => match spec_curse_path(gm, path, i + 1, s, p2, lo) {
                Some(Ok((t2, p3))) => Some(Ok((t1 + t2, p3))),
                other => other,
            },
            other => other,
        }
    }
}

/// The tokens of a text, read from the tree of a program; `None`: the
/// tokenizer panics.
pub open spec fn spec_tokenize(gm: Seq<Node>, s: Seq<char>) -> Option<Result<Seq<(TokenType, Seq<char>)>, Seq<char>>> {
    match spec_curse(gm, gm[8], s, 0) {
        Some(Ok((t, _))) => Some(Ok(t)),
        Some(Err(e)) => Some(Err(e)),
        None => None,
    }
}

/// Whether the character continues a token of the class.
pub fn class_char(k: CharClass, c: char) -> (r: bool)
    ensures
        r == in_class(k, c),
{
    match k {
        CharClass::Number => is_number(c),
        CharClass::Letter => is_letter(c),
        CharClass::Sign => is_sign(c),
        CharClass::Operator => is_operator(c),
        CharClass::LetterOrNumber => is_letter(c) || is_number(c),
    }
}

/// The class that starts with the character, if any.
pub fn char_class(c: char) -> (r: Option<CharClass>)
    ensures
        r == class_of(c),
{
    if is_number(c) {
        Some(CharClass::Number)
    } else if is_letter(c) {
        Some(CharClass::Letter)
    } else if is_sign(c) {
        Some(CharClass::Sign)
    } else if is_operator(c) {
        Some(CharClass::Operator)
    } else {
        None
    }
}

/// The kinds of tokens a class of characters may give.
pub fn kinds_of_class(k: CharClass) -> (r: Vec<TokenType>)
    ensures
        r@ == class_kinds(k),
{
    let r = match k {
        CharClass::Number => vec![TokenType::Number],
        CharClass::Letter => vec![TokenType::Ident, TokenType::Type],
        CharClass::Sign => vec![TokenType::Symbol],
        CharClass::Operator => vec![TokenType::Operator],
        CharClass::LetterOrNumber => vec![TokenType::Ident],
    };
    assert(r@ =~= class_kinds(k));
    r
}

/// Whether the kind is in the list.
pub fn kind_in(kinds: &Vec<TokenType>, t: TokenType) -> (r: bool)
    ensures
        r == kinds@.contains(t),
{
    let mut i: usize = 0;
    while i < kinds.len()
        invariant
            i <= kinds@.len(),
            forall|m: int| 0 <= m < i ==> kinds@[m] != t,
        decreases kinds@.len() - i,
    {
        if kinds[i] == t {
            return true;
        }
        i += 1;
    }
    false
}

/// The priority of a kind of token.
pub fn priority_of(t: TokenType) -> (r: Option<u8>)
    ensures
        r == priority(t),
{
    match t {
        TokenType::Ident | TokenType::Number => Some(1),
        TokenType::Type => Some(2),
        _ => None,
    }
}

/// `a < b` on priorities, an absent one being the lowest.
pub fn prio_less(a: Option<u8>, b: Option<u8>) -> (r: bool)
    ensures
        r == prio_lt(a, b),
{
    match (a, b) {
        (None, Some(_)) => true,
        (Some(x), Some(y)) => x < y,
        _ => false,
    }
}

/// Whether the node accepts the text as its token.
pub fn node_accepts(n: &Node, token: &str) -> (r: bool)
    ensures
        r == accepts(*n, token@),
{
    if n.constraints.len() == 0 {
        return true;
    }
    let mut j: usize = 0;
    while j < n.constraints.len()
        invariant
            j <= n.constraints@.len(),
            forall|m: int| 0 <= m < j ==> cons_view(n.constraints@)[m] != token@,
        decreases n.constraints@.len() - j,
    {
        if str_eq(n.constraints[j], token) {
            assert(cons_view(n.constraints@)[j as int] == token@);
            return true;
        }
        j += 1;
    }
    false
}

/// The end of the run of characters of the class from `pos`.
pub fn run_to(s: &Vec<char>, pos: usize, k: CharClass) -> (r: usize)
    requires
        pos <= s@.len(),
    ensures
        r == run_end(s@, pos as int, k),
        pos <= r <= s@.len(),
{
    let mut p = pos;
    while p < s.len() && class_char(k, s[p])
        invariant
            pos <= p <= s@.len(),
            run_end(s@, pos as int, k) == run_end(s@, p as int, k),
        decreases s@.len() - p,
    {
        p += 1;
    }
    p
}

impl Tokenizer {
    /// The position after the spaces and line feeds from `pos`.
    fn skip_garbage(&self, s: &Vec<char>, pos: usize) -> (r: usize)
        requires
            pos <= s@.len(),
        ensures
            r == skip_g(s@, pos as int),
            pos <= r <= s@.len(),
    {
        let mut p = pos;
        while p < s.len() && (s[p] == ' ' || s[p] == '\n')
            invariant
                pos <= p <= s@.len(),
                skip_g(s@, pos as int) == skip_g(s@, p as int),
            decreases s@.len() - p,
        {
            p += 1;
        }
        p
    }

    /// Reads the character at `pos` into the token, then, but for a sign,
    /// the characters of the class that follow; the position after them.
    fn next_char_while(&self, current_token: &mut String, s: &Vec<char>, pos: usize, k: CharClass) -> (r: usize)
        requires
            pos < s@.len(),
        ensures
            r == (match k {
                CharClass::Sign => pos + 1,
                _ => run_end(s@, pos + 1, k),
            }),
            pos < r <= s@.len(),
            final(current_token)@ == old(current_token)@ + s@.subrange(pos as int, r as int),
    {
        let n = s.len();
        push_char(current_token, s[pos]);
        let r = match k {
            CharClass::Sign => pos + 1,
            _ => {
                let e = run_to(s, pos + 1, k);
                let mut p = pos + 1;
                while p < e
                    invariant
                        pos < p <= e <= s@.len(),
                        current_token@ == old(current_token)@ + s@.subrange(pos as int, p as int),
                    decreases e - p,
                {
                    push_char(current_token, s[p]);
                    assert(s@.subrange(pos as int, p + 1) =~= s@.subrange(pos as int, p as int).push(s@[p as int]));
                    p += 1;
                }
                e
            },
        };
        proof {
            assert(s@.subrange(pos as int, pos + 1) =~= seq![s@[pos as int]]);
        }
        r
    }

    /// Keeps the paths whose first node is of one of the kinds; whether one
    /// is left.
    fn clean_son_vec<'a>(&self, path_vec: &mut Vec<Vec<&'a Node>>, author_type: &Vec<TokenType>) -> (r: bool)
        requires
            paths_wf(paths_view(old(path_vec)@)),
        ensures
            paths_view(final(path_vec)@) == keep_paths(paths_view(old(path_vec)@), author_type@),
            paths_wf(paths_view(final(path_vec)@)),
            r == (final(path_vec)@.len() > 0),
    {
        let ghost orig = paths_view(path_vec@);
        let ghost kinds = author_type@;
        let mut i: usize = 0;
        let ghost mut k: int = 0;
        proof {
            assert(orig.take(0) =~= Seq::<Seq<Node>>::empty());
            assert(orig.skip(0) =~= orig);
            assert(keep_paths(orig.take(0), kinds) =~= Seq::<Seq<Node>>::empty());
            assert(paths_view(path_vec@) =~= keep_paths(orig.take(0), kinds) + orig.skip(0));
        }
        while i < path_vec.len()
            invariant
                0 <= k <= orig.len(),
                kinds == author_type@,
                paths_wf(orig),
                paths_view(path_vec@) == keep_paths(orig.take(k), kinds) + orig.skip(k),
                i == keep_paths(orig.take(k), kinds).len(),
                paths_wf(paths_view(path_vec@)),
            decreases path_vec@.len() - i,
        {
            let ghost before = path_vec@;
            proof {
                assert(paths_view(before)[i as int] == orig[k]);
                assert(orig.take(k + 1).drop_last() =~= orig.take(k));
                assert(orig.take(k + 1).last() == orig[k]);
            }
            let t = path_vec[i][0].type_token;
            proof {
                assert(paths_view(before)[i as int] == before[i as int]@.map_values(|n: &Node| *n));
                assert(t == orig[k][0].type_token);
            }
            if !kind_in(author_type, t) {
                path_vec.remove(i);
                proof {
                    assert(paths_view(path_vec@) =~= paths_view(before).remove(i as int));
                    assert(orig.skip(k) =~= seq![orig[k]] + orig.skip(k + 1));
                    assert(paths_view(path_vec@) =~= keep_paths(orig.take(k + 1), kinds) + orig.skip(k + 1));
                    assert forall|m: int| 0 <= m < paths_view(path_vec@).len() implies #[trigger] paths_view(
                        path_vec@,
                    )[m].len() > 0 && forall|q: int|
                        0 <= q < paths_view(path_vec@)[m].len() ==> tree_wf(#[trigger] paths_view(path_vec@)[m][q]) by {
                        if m < i {
                            assert(paths_view(path_vec@)[m] == paths_view(before)[m]);
                        } else {
                            assert(paths_view(path_vec@)[m] == paths_view(before)[m + 1]);
                        }
                    }
                    k = k + 1;
                }
            } else {
                proof {
                    assert(keep_paths(orig.take(k + 1), kinds) == keep_paths(orig.take(k), kinds).push(orig[k]));
                    assert(paths_view(path_vec@) =~= keep_paths(orig.take(k + 1), kinds) + orig.skip(k + 1));
                    k = k + 1;
                }
                i += 1;
            }
        }
        proof {
            assert(orig.take(k) =~= orig);
            assert(orig.skip(k) =~= Seq::<Seq<Node>>::empty());
            assert(paths_view(path_vec@) =~= keep_paths(orig, kinds));
        }
        path_vec.len() > 0
    }
}

impl Tokenizer {
    /// Reads the next token at `pos` (where a character stands): keeps the
    /// paths that may take it and gives its text and the position after it.
    fn get_next_token<'a>(&self, path_vec: &mut Vec<Vec<&'a Node>>, s: &Vec<char>, pos: usize) -> (r: Option<
        Result<(String, usize), String>,
    >)
        requires
            pos < s@.len(),
            paths_wf(paths_view(old(path_vec)@)),
        ensures
            paths_wf(paths_view(final(path_vec)@)),
            match spec_next_token(paths_view(old(path_vec)@), s@, pos as int) {
                Some(Ok((ps, tok, p))) => r matches Some(Ok((t, q))) && paths_view(final(path_vec)@) == ps && t@ == tok
                    && q == p,
                Some(Err(e)) => r matches Some(Err(x)) && x@ == e,
                None => r is None,
            },
    {
        let ghost ps0 = paths_view(path_vec@);
        let c = s[pos];
        let mut current_token = new_string();
        match char_class(c) {
            None => Some(Ok((current_token, pos))),
            Some(k) => {
                let kinds = kinds_of_class(k);
                if self.clean_son_vec(path_vec, &kinds) {
                    let mut p = self.next_char_while(&mut current_token, s, pos, k);
                    let letters = match k {
                        CharClass::Letter => true,
                        _ => false,
                    };
                    if letters {
                        if p >= s.len() {
                            return None;
                        }
                        if is_number(s[p]) {
                            let ident = vec![TokenType::Ident];
                            assert(ident@ =~= seq![TokenType::Ident]);
                            if self.clean_son_vec(path_vec, &ident) {
                                p = self.next_char_while(&mut current_token, s, p, CharClass::LetterOrNumber);
                                proof {
                                    assert(s@.subrange(pos as int, p as int) =~= current_token@);
                                }
                            }
                        }
                    }
                    Some(Ok((current_token, p)))
                } else {
                    Some(Err(copy_str("FAILED TO TOKENIZE")))
                }
            },
        }
    }

    /// The path chosen for the token: the first that accepts it, replaced by
    /// a later one of strictly higher priority; none for an empty token.
    fn filter_nodes<'a>(&self, paths: &Vec<Vec<&'a Node>>, token: &String) -> (r: Option<usize>)
        requires
            paths_wf(paths_view(paths@)),
        ensures
            opt_int(r) == (if token@.len() == 0 {
                None
            } else {
                best_path(paths_view(paths@), token@, 0, None)
            }),
            r is Some ==> r->0 < paths@.len(),
    {
        let ghost ps = paths_view(paths@);
        if token.as_str().unicode_len() == 0 {
            return None;
        }
        let mut i: usize = 0;
        let mut res: Option<usize> = None;
        while i < paths.len()
            invariant
                i <= paths@.len(),
                ps == paths_view(paths@),
                paths_wf(ps),
                token@.len() > 0,
                best_path(ps, token@, 0, None) == best_path(ps, token@, i as int, opt_int(res)),
                res is Some ==> res->0 < i,
            decreases paths@.len() - i,
        {
            proof {
                assert(ps[i as int] == paths@[i as int]@.map_values(|n: &Node| *n));
                assert(ps[i as int].len() > 0);
            }
            let node: &Node = paths[i][0];
            assert(*node == ps[i as int][0]);
            if node_accepts(node, token.as_str()) {
                let better = match res {
                    None => true,
                    Some(j) => {
                        proof {
                            assert(ps[j as int] == paths@[j as int]@.map_values(|n: &Node| *n));
                            assert(ps[j as int].len() > 0);
                        }
                        prio_less(priority_of(paths[j][0].type_token), priority_of(node.type_token))
                    },
                };
                if better {
                    res = Some(i);
                }
            }
            i += 1;
        }
        res
    }

    /// Walks the tree from the node over the text from `pos`, adding the
    /// tokens read to `res`; the position after them.
    fn curse(&self, current_node: &Node, res: Vec<Token>, s: &Vec<char>, pos: usize) -> (r: Option<
        Result<(Vec<Token>, usize), String>,
    >)
        requires
            grammar_is(self.group_map@),
            tree_wf(*current_node),
            pos <= s@.len(),
        ensures
            match spec_curse(self.group_map@, *current_node, s@, pos as int) {
                Some(Ok((t, p))) => r matches Some(Ok((v, q))) && tokens_view(v@) == tokens_view(res@) + t && q == p,
                Some(Err(e)) => r matches Some(Err(x)) && x@ == e,
                None => r is None,
            },
        decreases s@.len() - pos, 1int, 0int,
    {
        let ghost gm = self.group_map@;
        let p0 = if !current_node.consider_garbage {
            self.skip_garbage(s, pos)
        } else {
            pos
        };
        if p0 >= s.len() {
            proof {
                assert(tokens_view(res@) + Seq::<(TokenType, Seq<char>)>::empty() =~= tokens_view(res@));
            }
            return Some(Ok((res, p0)));
        }
        proof {
            assert forall|j: int| 0 <= j < current_node.groups@.len() implies group_kinds().contains(
                #[trigger] current_node.groups@[j].type_token,
            ) && rank(current_node.groups@[j].type_token) < 5 by {
                lemma_group_index(current_node.groups@[j].type_token);
            }
        }
        let mut paths_vec = self.get_son_array(current_node, Ghost(5));
        let ghost ps0 = paths_view(paths_vec@);
        match self.get_next_token(&mut paths_vec, s, p0) {
            None => None,
            Some(Ok((token_string, p1))) => {
                let ghost ps = paths_view(paths_vec@);
                match self.filter_nodes(&paths_vec, &token_string) {
                    Some(i) => {
                        let t = paths_vec[i][0].type_token;
                        proof {
                            assert(ps[i as int] == paths_vec@[i as int]@.map_values(|n: &Node| *n));
                            assert forall|m: int| 0 <= m < paths_vec@[i as int]@.len() implies tree_wf(
                                *#[trigger] paths_vec@[i as int]@[m],
                            ) by {
                                assert(ps[i as int][m] == *paths_vec@[i as int]@[m]);
                            }
                        }
                        let mut res = res;
                        let ghost r0 = tokens_view(res@);
                        res.push(Token::new(t, token_string));
                        proof {
                            assert(tokens_view(res@) =~= r0.push((ps[i as int][0].type_token, token_string@)));
                        }
                        let r = self.curse_path(&paths_vec[i], 0, res, s, p1, pos);
                        proof {
                            match spec_curse_path(gm, ps[i as int], 0, s@, p1 as int, pos as int) {
                                Some(Ok((toks, p2))) => {
                                    assert(r0.push((ps[i as int][0].type_token, token_string@)) + toks =~= r0 + (seq![
                                        (ps[i as int][0].type_token, token_string@),
                                    ] + toks));
                                },
                                _ => {},
                            }
                        }
                        r
                    },
                    None => {
                        if !current_node.can_end {
                            return Some(Err(copy_str("CAN T BUILD THE TREE")));
                        }
                        proof {
                            assert(tokens_view(res@) + Seq::<(TokenType, Seq<char>)>::empty() =~= tokens_view(res@));
                        }
                        Some(Ok((res, p0)))
                    },
                }
            },
            Some(Err(e)) => {
                if !current_node.can_end {
                    return Some(Err(e));
                }
                proof {
                    assert(tokens_view(res@) + Seq::<(TokenType, Seq<char>)>::empty() =~= tokens_view(res@));
                }
                Some(Ok((res, p0)))
            },
        }
    }

    /// Walks the tree from each node of the path in turn, from the `i`-th.
    fn curse_path(&self, path: &Vec<&Node>, i: usize, res: Vec<Token>, s: &Vec<char>, p: usize, lo: usize) -> (r: Option<
        Result<(Vec<Token>, usize), String>,
    >)
        requires
            grammar_is(self.group_map@),
            i <= path@.len(),
            forall|m: int| 0 <= m < path@.len() ==> tree_wf(*#[trigger] path@[m]),
        ensures
            match spec_curse_path(self.group_map@, path@.map_values(|n: &Node| *n), i as int, s@, p as int, lo as int) {
                Some(Ok((t, q))) => r matches Some(Ok((v, w))) && tokens_view(v@) == tokens_view(res@) + t && w == q,
                Some(Err(e)) => r matches Some(Err(x)) && x@ == e,
                None => r is None,
            },
        decreases s@.len() - lo, 0int, path@.len() - i,
    {
        let ghost gm = self.group_map@;
        let ghost pv = path@.map_values(|n: &Node| *n);
        if i >= path.len() {
            proof {
                assert(tokens_view(res@) + Seq::<(TokenType, Seq<char>)>::empty() =~= tokens_view(res@));
            }
            return Some(Ok((res, p)));
        }
        if p <= lo || p > s.len() {
            return None;
        }
        proof {
            assert(pv[i as int] == *path@[i as int]);
        }
        let ghost r0 = tokens_view(res@);
        match self.curse(path[i], res, s, p) {
            Some(Ok((res2, p2))) => {
                let r = self.curse_path(path, i + 1, res2, s, p2, lo);
                proof {
                    match spec_curse(gm, pv[i as int], s@, p as int) {
                        Some(Ok((t1, q1))) => {
                            match spec_curse_path(gm, pv, i + 1, s@, q1, lo as int) {
                                Some(Ok((t2, q2))) => {
                                    assert(r0 + t1 + t2 =~= r0 + (t1 + t2));
                                },
                                _ => {},
                            }
                        },
                        _ => {},
                    }
                }
                r
            },
            Some(Err(e)) => Some(Err(e)),
            None => None,
        }
    }

    /// The tokens of the text, read from the tree of a program; `None`
    /// where the reading panics (a word ends the text where a digit may
    /// follow it, or a node reads back over the token that chose its path).
    pub fn checked_tokenize(&mut self, input: String) -> (r: Option<Result<Vec<Token>, String>>)
        requires
            grammar_is(old(self).group_map@),
        ensures
            final(self).group_map@ == old(self).group_map@,
            match spec_tokenize(old(self).group_map@, input@) {
                Some(Ok(t)) => r matches Some(Ok(v)) && tokens_view(v@) == t,
                Some(Err(e)) => r matches Some(Err(x)) && x@ == e,
                None => r is None,
            },
    {
        let result = Vec::<Token>::new();
        proof {
            lemma_grammar_wf(self.group_map@);
        }
        let chars = chars_of(input.as_str());
        let first_node = &self.group_map[8];
        let r = self.curse(first_node, result, &chars, 0);
        proof {
            assert(tokens_view(Seq::<Token>::empty()) =~= Seq::<(TokenType, Seq<char>)>::empty());
        }
        match r {
            Some(Ok((toks, _))) => {
                proof {
                    match spec_curse(self.group_map@, self.group_map@[8], input@, 0) {
                        Some(Ok((t, _))) => {
                            assert(Seq::<(TokenType, Seq<char>)>::empty() + t =~= t);
                        },
                        _ => {},
                    }
                }
                Some(Ok(toks))
            },
            Some(Err(e)) => Some(Err(e)),
            None => None,
        }
    }

    /// The tokens of the text, read from the tree of a program (on a text
    /// the reading does not panic on).
    pub fn tokenize(&mut self, input: String) -> (r: Result<Vec<Token>, String>)
        requires
            grammar_is(old(self).group_map@),
            spec_tokenize(old(self).group_map@, input@) is Some,
        ensures
            final(self).group_map@ == old(self).group_map@,
            match spec_tokenize(old(self).group_map@, input@) {
                Some(Ok(t)) => r is Ok && tokens_view(r->Ok_0@) == t,
                Some(Err(e)) => r is Err && r->Err_0@ == e,
                None => false,
            },
    {
        match self.checked_tokenize(input) {
            Some(r) => r,
            None => {
                proof {
                    assert(false);
                }
                Err(new_string())
            },
        }
    }
}

/// Skipping spaces stays within the text.
pub proof fn lemma_skip_g_bounds(s: Seq<char>, pos: int)
    requires
        0 <= pos <= s.len(),
    ensures
        pos <= skip_g(s, pos) <= s.len(),
    decreases s.len() - pos,
{
    if pos < s.len() && is_garbage(s[pos]) {
        lemma_skip_g_bounds(s, pos + 1);
    }
}

/// A run of a class stays within the text.
pub proof fn lemma_run_end_bounds(s: Seq<char>, pos: int, k: CharClass)
    requires
        0 <= pos <= s.len(),
    ensures
        pos <= run_end(s, pos, k) <= s.len(),
    decreases s.len() - pos,
{
    if pos < s.len() && in_class(k, s[pos]) {
        lemma_run_end_bounds(s, pos + 1, k);
    }
}

/// A token read is the text between the position and the position after
/// it, which stays within the text.
pub proof fn lemma_next_token_bounds(ps: Seq<Seq<Node>>, s: Seq<char>, pos: int)
    requires
        0 <= pos < s.len(),
    ensures
        match spec_next_token(ps, s, pos) {
            Some(Ok((_, tok, p))) => pos <= p <= s.len() && tok == s.subrange(pos, p),
            _ => true,
        },
{
    match class_of(s[pos]) {
        None => {
            assert(s.subrange(pos, pos) =~= Seq::<char>::empty());
        },
        Some(k) => {
            lemma_run_end_bounds(s, pos + 1, k);
            let e1 = run_end(s, pos + 1, k);
            if k == CharClass::Letter && e1 < s.len() {
                lemma_run_end_bounds(s, e1 + 1, CharClass::LetterOrNumber);
            }
        },
    }
}

/// Walking the tree never reads back and never past the end of the text.
pub proof fn lemma_curse_bounds(gm: Seq<Node>, node: Node, s: Seq<char>, pos: int)
    requires
        0 <= pos <= s.len(),
    ensures
        match spec_curse(gm, node, s, pos) {
            Some(Ok((_, p))) => pos <= p <= s.len(),
            _ => true,
        },
    decreases s.len() - pos, 1int, 0int,
{
    lemma_skip_g_bounds(s, pos);
    let p0 = if node.consider_garbage {
        pos
    } else {
        skip_g(s, pos)
    };
    if p0 < s.len() {
        lemma_next_token_bounds(son_paths(gm, node, 5), s, p0);
        match spec_next_token(son_paths(gm, node, 5), s, p0) {
            Some(Ok((ps, tok, p1))) => {
                if tok.len() > 0 {
                    match best_path(ps, tok, 0, None) {
                        Some(i) => {
                            lemma_curse_path_bounds(gm, ps[i], 0, s, p1, pos);
                        },
                        None => {},
                    }
                }
            },
            _ => {},
        }
    }
}

/// Walking the nodes of a path never reads back and never past the end of
/// the text.
pub proof fn lemma_curse_path_bounds(gm: Seq<Node>, path: Seq<Node>, i: int, s: Seq<char>, p: int, lo: int)
    requires
        lo < p <= s.len(),
        0 <= lo,
    ensures
        match spec_curse_path(gm, path, i, s, p, lo) {
            Some(Ok((_, q))) => p <= q <= s.len(),
            _ => true,
        },
    decreases s.len() - lo, 0int, path.len() - i,
{
    if 0 <= i < path.len() {
        lemma_curse_bounds(gm, path[i], s, p);
        match spec_curse(gm, path[i], s, p) {
            Some(Ok((_, p2))) => {
                lemma_curse_path_bounds(gm, path, i + 1, s, p2, lo);
            },
            _ => {},
        }
    }
}

/// The walk along a path fails for want of a position (`None`) only where
/// the walk from one of its nodes panics: every position it starts a node
/// from lies after the token that chose the path and within the text.
pub proof fn lemma_curse_path_none(gm: Seq<Node>, path: Seq<Node>, i: int, s: Seq<char>, p: int, lo: int)
    requires
        lo < p <= s.len(),
        0 <= lo,
        0 <= i,
        spec_curse_path(gm, path, i, s, p, lo) is None,
    ensures
        exists|m: int, q: int| i <= m < path.len() && lo < q <= s.len() && #[trigger] spec_curse(gm, path[m], s, q) is None,
    decreases path.len() - i,
{
    lemma_curse_bounds(gm, path[i], s, p);
    match spec_curse(gm, path[i], s, p) {
        Some(Ok((_, p2))) => {
            lemma_curse_path_none(gm, path, i + 1, s, p2, lo);
        },
        _ => {},
    }
}

/// The paths kept start with a node of one of the kinds.
pub proof fn lemma_keep_paths_kinds(ps: Seq<Seq<Node>>, kinds: Seq<TokenType>)
    ensures
        forall|j: int| 0 <= j < keep_paths(ps, kinds).len() ==> kinds.contains(#[trigger] keep_paths(ps, kinds)[j][0].type_token),
    decreases ps.len(),
{
    if ps.len() > 0 {
        lemma_keep_paths_kinds(ps.drop_last(), kinds);
    }
}

/// The path chosen is one of the paths.
pub proof fn lemma_best_path_range(ps: Seq<Seq<Node>>, token: Seq<char>, i: int, res: Option<int>)
    requires
        0 <= i,
        res matches Some(r) ==> 0 <= r < ps.len(),
    ensures
        best_path(ps, token, i, res) matches Some(r) ==> 0 <= r < ps.len(),
    decreases ps.len() - i,
{
    if i < ps.len() {
        lemma_best_path_range(ps, token, i + 1, Some(i));
        lemma_best_path_range(ps, token, i + 1, res);
    }
}

/// The paths left once a token is read start with nodes of primitive kinds.
pub proof fn lemma_next_token_kinds(ps: Seq<Seq<Node>>, s: Seq<char>, pos: int)
    requires
        0 <= pos < s.len(),
    ensures
        match spec_next_token(ps, s, pos) {
            Some(Ok((qs, tok, _))) => tok.len() > 0 ==> forall|j: int| 0 <= j < qs.len() ==> is_primitive(#[trigger] qs[j][0].type_token),
            _ => true,
        },
{
    match class_of(s[pos]) {
        None => {},
        Some(k) => {
            let p1 = keep_paths(ps, class_kinds(k));
            lemma_keep_paths_kinds(ps, class_kinds(k));
            lemma_keep_paths_kinds(p1, seq![TokenType::Ident]);
            assert forall|t: TokenType| #[trigger] class_kinds(k).contains(t) implies is_primitive(t) by {
                let j = choose|j: int| 0 <= j < class_kinds(k).len() && class_kinds(k)[j] == t;
            }
            assert forall|t: TokenType| #[trigger] seq![TokenType::Ident].contains(t) implies is_primitive(t) by {
                let j = choose|j: int| 0 <= j < seq![TokenType::Ident].len() && seq![TokenType::Ident][j] == t;
            }
        },
    }
}

/// Each token that walking the tree reads is of a primitive kind, with a
/// text that is not empty.
pub proof fn lemma_curse_tokens(gm: Seq<Node>, node: Node, s: Seq<char>, pos: int)
    requires
        0 <= pos <= s.len(),
    ensures
        match spec_curse(gm, node, s, pos) {
            Some(Ok((t, _))) => forall|j: int| 0 <= j < t.len() ==> is_primitive(#[trigger] t[j].0) && t[j].1.len() > 0,
            _ => true,
        },
    decreases s.len() - pos, 1int, 0int,
{
    lemma_skip_g_bounds(s, pos);
    let p0 = if node.consider_garbage {
        pos
    } else {
        skip_g(s, pos)
    };
    if p0 < s.len() {
        lemma_next_token_bounds(son_paths(gm, node, 5), s, p0);
        lemma_next_token_kinds(son_paths(gm, node, 5), s, p0);
        match spec_next_token(son_paths(gm, node, 5), s, p0) {
            Some(Ok((ps, tok, p1))) => {
                if tok.len() > 0 {
                    lemma_best_path_range(ps, tok, 0, None);
                    match best_path(ps, tok, 0, None) {
                        Some(i) => {
                            lemma_curse_path_tokens(gm, ps[i], 0, s, p1, pos);
                            match spec_curse_path(gm, ps[i], 0, s, p1, pos) {
                                Some(Ok((toks, _))) => {
                                    let all = seq![(ps[i][0].type_token, tok)] + toks;
                                    assert forall|j: int| 0 <= j < all.len() implies is_primitive(#[trigger] all[j].0)
                                        && all[j].1.len() > 0 by {
                                        if j > 0 {
                                            assert(all[j] == toks[j - 1]);
                                        }
                                    }
                                },
                                _ => {},
                            }
                        },
                        None => {},
                    }
                }
            },
            _ => {},
        }
    }
}

/// Each token that walking the nodes of a path reads is of a primitive
/// kind, with a text that is not empty.
pub proof fn lemma_curse_path_tokens(gm: Seq<Node>, path: Seq<Node>, i: int, s: Seq<char>, p: int, lo: int)
    requires
        lo < p <= s.len(),
        0 <= lo,
    ensures
        match spec_curse_path(gm, path, i, s, p, lo) {
            Some(Ok((t, _))) => forall|j: int| 0 <= j < t.len() ==> is_primitive(#[trigger] t[j].0) && t[j].1.len() > 0,
            _ => true,
        },
    decreases s.len() - lo, 0int, path.len() - i,
{
    if 0 <= i < path.len() {
        lemma_curse_bounds(gm, path[i], s, p);
        lemma_curse_tokens(gm, path[i], s, p);
        match spec_curse(gm, path[i], s, p) {
            Some(Ok((t1, p2))) => {
                lemma_curse_path_tokens(gm, path, i + 1, s, p2, lo);
                match spec_curse_path(gm, path, i + 1, s, p2, lo) {
                    Some(Ok((t2, _))) => {
                        assert forall|j: int| 0 <= j < (t1 + t2).len() implies is_primitive(#[trigger] (t1 + t2)[j].0)
                            && (t1 + t2)[j].1.len() > 0 by {
                            if j >= t1.len() {
                                assert((t1 + t2)[j] == t2[j - t1.len()]);
                            }
                        }
                    },
                    _ => {},
                }
            },
            _ => {},
        }
    }
}

} // verus!

verus! {

/// Every character of a run of a class lies in the class, and the run stops
/// at the end of the text or at a character out of the class.
proof fn lemma_run_end(s: Seq<char>, pos: int, k: CharClass)
    requires
        0 <= pos <= s.len(),
    ensures
        pos <= run_end(s, pos, k) <= s.len(),
        forall|j: int| pos <= j < run_end(s, pos, k) ==> in_class(k, #[trigger] s[j]),
        run_end(s, pos, k) < s.len() ==> !in_class(k, s[run_end(s, pos, k)]),
    decreases s.len() - pos,
{
    if pos < s.len() && in_class(k, s[pos]) {
        lemma_run_end(s, pos + 1, k);
    }
}

/// A path kept for its kind is kept again among paths kept for more kinds.
proof fn lemma_keep_paths_sub(ps: Seq<Seq<Node>>, wide: Seq<TokenType>, narrow: Seq<TokenType>)
    requires
        forall|t: TokenType| narrow.contains(t) ==> wide.contains(t),
    ensures
        keep_paths(keep_paths(ps, wide), narrow) == keep_paths(ps, narrow),
    decreases ps.len(),
{
    if ps.len() > 0 {
        lemma_keep_paths_sub(ps.drop_last(), wide, narrow);
        if wide.contains(ps.last()[0].type_token) {
            let w = keep_paths(ps.drop_last(), wide).push(ps.last());
            assert(w.drop_last() =~= keep_paths(ps.drop_last(), wide));
        }
    }
}

/// A word that starts with a letter and may be an identifier is read whole:
/// where a path expects an identifier, the token read at a letter is the
/// whole run of letters and digits from there, up to a character that is
/// neither (or the end of the text).
pub proof fn lemma_ident_reads_letters_and_digits(ps: Seq<Seq<Node>>, s: Seq<char>, pos: int)
    requires
        0 <= pos < s.len(),
        spec_is_letter(s[pos]),
        keep_paths(ps, seq![TokenType::Ident]).len() > 0,
    ensures
        spec_next_token(ps, s, pos) matches Some(Ok((p, t, e))) ==> {
            &&& pos < e <= s.len()
            &&& t == s.subrange(pos, e)
            &&& forall|j: int| pos <= j < e ==> spec_is_letter(#[trigger] s[j]) || spec_is_number(s[j])
            &&& e < s.len() ==> !(spec_is_letter(s[e]) || spec_is_number(s[e]))
        },
{
    assert(!spec_is_number(s[pos]));
    assert(class_of(s[pos]) == Some(CharClass::Letter));
    let kinds = class_kinds(CharClass::Letter);
    assert(kinds == seq![TokenType::Ident, TokenType::Type]);
    assert forall|t: TokenType| seq![TokenType::Ident].contains(t) implies kinds.contains(t) by {
        assert(seq![TokenType::Ident][0] == TokenType::Ident);
        assert(kinds[0] == TokenType::Ident);
    }
    lemma_keep_paths_sub(ps, kinds, seq![TokenType::Ident]);
    let p1 = keep_paths(ps, kinds);
    lemma_keep_paths_sub(ps, kinds, seq![TokenType::Ident]);
    assert(p1.len() > 0) by {
        if p1.len() == 0 {
            assert(keep_paths(p1, seq![TokenType::Ident]) == p1);
        }
    }
    lemma_run_end(s, pos + 1, CharClass::Letter);
    let e1 = run_end(s, pos + 1, CharClass::Letter);
    if e1 < s.len() {
        if spec_is_number(s[e1]) {
            lemma_run_end(s, e1 + 1, CharClass::LetterOrNumber);
            let e2 = run_end(s, e1 + 1, CharClass::LetterOrNumber);
            assert forall|j: int| pos <= j < e2 implies spec_is_letter(#[trigger] s[j]) || spec_is_number(s[j]) by {
                if pos < j < e1 {
                    assert(in_class(CharClass::Letter, s[j]));
                } else if e1 < j {
                    assert(in_class(CharClass::LetterOrNumber, s[j]));
                }
            }
        } else {
            assert forall|j: int| pos <= j < e1 implies spec_is_letter(#[trigger] s[j]) || spec_is_number(s[j]) by {
                if pos < j {
                    assert(in_class(CharClass::Letter, s[j]));
                }
            }
        }
    }
}

} // verus!
