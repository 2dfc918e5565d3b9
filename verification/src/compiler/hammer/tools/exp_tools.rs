//! The expressions of the second compiler: their tokens are put in postfix
//! order as they come (numbers and identifiers at once, operators through a
//! stack), then turned into assembly that evaluates them on the stack.
use vstd::prelude::*;
use crate::stack::Stack;
use crate::text::{
    views, str_eq, copy_str, new_string, push_str, push_int, int_digits, spec_replace, replace_str,
    spec_parse_i64, spec_parse_i32, parse_i64, parse_i32,
};
use crate::compiler::hammer::tokenizer::{spec_operator_tokens, get_default_constraint, cons_view, TokenType};

verus! {

/// The number of stars of an expression before any identifier was read.
pub const NO_TYPE: i32 = -1;

/// What a token of the postfix expression is.
#[derive(PartialEq, Eq, Structural, Clone, Copy)]
pub enum ExpTokenType {
    Operator,
    Number,
    Ident,
}

/// A token of the postfix expression: an operator by its rank among the
/// operators, a number, or an identifier by its offset on the stack.
#[derive(PartialEq, Eq, Structural, Clone, Copy)]
pub struct ExpToken {
    pub token_type: ExpTokenType,
    pub content: i64,
}

impl ExpToken {
    /// A token.
    pub fn new(token_type: ExpTokenType, content: i64) -> (r: ExpToken)
        ensures
            r == (ExpToken { token_type, content }),
    {
        ExpToken { token_type, content }
    }
}

/// The priority of an operator in an expression.
pub open spec fn exp_priority(op: Seq<char>) -> Option<int> {
    if op == "%"@ || op == "*"@ || op == "/"@ {
        Some(4)
    } else if op == "<"@ || op == "<="@ || op == ">"@ || op == ">="@ || op == "=="@ || op == "!="@ || op == "||"@
        || op == "&&"@ {
        Some(2)
    } else if op == "+"@ || op == "-"@ {
        Some(3)
    } else if op == ")"@ {
        Some(4)
    } else if op == "("@ {
        Some(5)
    } else {
        None
    }
}

/// The priority of an operator in an expression, if it has one.
pub fn get_priority(op: &str) -> (r: Option<u8>)
    ensures
        match r {
            Some(p) => exp_priority(op@) == Some(p as int),
            None => exp_priority(op@) is None,
        },
{
    if str_eq(op, "%") || str_eq(op, "*") || str_eq(op, "/") {
        Some(4)
    } else if str_eq(op, "<") || str_eq(op, "<=") || str_eq(op, ">") || str_eq(op, ">=") || str_eq(op, "==")
        || str_eq(op, "!=") || str_eq(op, "||") || str_eq(op, "&&") {
        Some(2)
    } else if str_eq(op, "+") || str_eq(op, "-") {
        Some(3)
    } else if str_eq(op, ")") {
        Some(4)
    } else if str_eq(op, "(") {
        Some(5)
    } else {
        None
    }
}

/// The rank of `op` among the operators from the `i`-th on.
pub open spec fn rank_from(ops: Seq<Seq<char>>, op: Seq<char>, i: int) -> Option<int>
    decreases ops.len() - i,
{
    if i < 0 || i >= ops.len() {
        None
    } else if ops[i] == op {
        Some(i)
    } else {
        rank_from(ops, op, i + 1)
    }
}

/// The rank of an operator among the operators of the language.
pub open spec fn op_id(op: Seq<char>) -> Option<int> {
    rank_from(spec_operator_tokens(), op, 0)
}

/// The rank of an operator among the operators of the language.
pub fn op_id_of(op: &str) -> (r: Option<i64>)
    ensures
        match r {
            Some(v) => op_id(op@) == Some(v as int),
            None => op_id(op@) is None,
        },
{
    let ops = get_default_constraint(TokenType::Operator);
    let ghost ov = cons_view(ops@);
    assert(ov == spec_operator_tokens());
    let mut i: usize = 0;
    while i < ops.len()
        invariant
            i <= ops@.len(),
            ops@.len() == 14,
            ov == cons_view(ops@),
            ov == spec_operator_tokens(),
            op_id(op@) == rank_from(ov, op@, i as int),
        decreases ops@.len() - i,
    {
        assert(ov[i as int] == ops@[i as int]@);
        if str_eq(ops[i], op) {
            return Some(i as i64);
        }
        i += 1;
    }
    None
}

/// The operator token of an operator of the stack.
pub open spec fn op_token(op: Seq<char>) -> ExpToken {
    ExpToken { token_type: ExpTokenType::Operator, content: op_id(op)->0 as i64 }
}

/// Moves to the postfix expression the operators on top of the stack that
/// bind at least as much as `c`, down to an opening parenthesis; none where
/// an operator has no priority or no rank (a panic).
pub open spec fn pop_ops_while(stack: Seq<Seq<char>>, pf: Seq<ExpToken>, c: Seq<char>) -> Option<(Seq<Seq<char>>, Seq<ExpToken>)>
    decreases stack.len(),
{
    if stack.len() == 0 || stack.last() == "("@ {
        Some((stack, pf))
    } else {
        match (exp_priority(stack.last()), exp_priority(c)) {
            (Some(a), Some(b)) => if a >= b {
                if op_id(stack.last()) is Some {
                    pop_ops_while(stack.drop_last(), pf.push(op_token(stack.last())), c)
                } else {
                    None
                }
            } else {
                Some((stack, pf))
            },
            _ => None,
        }
    }
}

/// Moves to the postfix expression the operators above the last opening
/// parenthesis, which goes; none where there is none or an operator has no
/// rank.
pub open spec fn pop_to_paren(stack: Seq<Seq<char>>, pf: Seq<ExpToken>) -> Option<(Seq<Seq<char>>, Seq<ExpToken>)>
    decreases stack.len(),
{
    if stack.len() == 0 {
        None
    } else if stack.last() == "("@ {
        Some((stack.drop_last(), pf))
    } else if op_id(stack.last()) is Some {
        pop_to_paren(stack.drop_last(), pf.push(op_token(stack.last())))
    } else {
        None
    }
}

/// Moves every operator of the stack to the postfix expression; none where
/// one has no rank (an opening parenthesis left open).
pub open spec fn flush_ops(stack: Seq<Seq<char>>, pf: Seq<ExpToken>) -> Option<Seq<ExpToken>>
    decreases stack.len(),
{
    if stack.len() == 0 {
        Some(pf)
    } else if op_id(stack.last()) is Some {
        flush_ops(stack.drop_last(), pf.push(op_token(stack.last())))
    } else {
        None
    }
}

/// The number of identifiers of a postfix expression.
pub open spec fn idents(pf: Seq<ExpToken>) -> int
    decreases pf.len(),
{
    if pf.len() == 0 {
        0
    } else {
        idents(pf.drop_last()) + if pf.last().token_type == ExpTokenType::Ident {
            1int
        } else {
            0int
        }
    }
}

/// The assembly of one token; `v` is where an identifier is read from.
pub open spec fn token_asm(t: ExpToken, v: int) -> Seq<char> {
    match t.token_type {
        ExpTokenType::Operator => "\nmov r12, "@ + int_digits(t.content as int) + OP2@,
        ExpTokenType::Number => "\npush "@ + int_digits(t.content as int) + NUM2@,
        ExpTokenType::Ident => ID1@ + int_digits(v) + ID2@,
    }
}

/// The assembly of the tokens, in order; the `n`-th identifier is read at
/// `esp - 8 n`.
pub open spec fn asm_body(pf: Seq<ExpToken>, esp: int) -> Seq<char>
    decreases pf.len(),
{
    if pf.len() == 0 {
        seq![]
    } else {
        asm_body(pf.drop_last(), esp) + token_asm(pf.last(), esp - (idents(pf.drop_last()) + 1) * 8)
    }
}

/// The assembly of an expression: the tokens, then the stack freed, then
/// the needless pushes followed by pops taken out.
pub open spec fn spec_build_asm(pf: Seq<ExpToken>, esp: int) -> Seq<char> {
    let raw = "\n"@ + "\nmov rbp, rsp"@ + asm_body(pf, esp) + "\npop rax\nadd rsp, "@ + int_digits((idents(pf) + 1) * 8)
        + "\npush rax"@;
    spec_replace(spec_replace(raw, REMOVE_A@, ""@), REMOVE_B@, ""@)
}

/// The end of the assembly of an operator.
pub const OP2: &'static str = "        ; We found an operator, lets do the operation\npop r11             ; First operande\npop r10             ; Second operande\ncall _operation     ; call the operation\npush rax            ; Then save the result";

/// The end of the assembly of a number.
pub const NUM2: &'static str = "            ; We found a number, lets push it";

/// The start of the assembly of an identifier.
pub const ID1: &'static str = "      \nmov rax, [rbp+";

/// The end of the assembly of an identifier.
pub const ID2: &'static str = "]   ; We found an ident, its on the satck, lets keep it.\npush rax";

/// A push followed by a pop, after an operation.
pub const REMOVE_A: &'static str = "push rax            ; Then save the result\npop rax";

/// A push followed by a pop.
pub const REMOVE_B: &'static str = "push rax\npop rax";

/// An expression being read.
pub struct ExpTools {
    op_stack: Stack<String>,
    pf_exp: Vec<ExpToken>,
    esp_decal: i64,
    stars: i32,
}

impl ExpTools {
    /// The operators waiting, from the bottom.
    pub closed spec fn stack(&self) -> Seq<Seq<char>> {
        views(self.op_stack@)
    }

    /// The postfix expression so far.
    pub closed spec fn postfix(&self) -> Seq<ExpToken> {
        self.pf_exp@
    }

    /// The offset of the next identifier.
    pub closed spec fn esp(&self) -> int {
        self.esp_decal as int
    }

    /// The number of stars of the expression's identifiers.
    pub closed spec fn stars(&self) -> int {
        self.stars as int
    }

    /// Each identifier read moved the offset by eight.
    pub closed spec fn wf(&self) -> bool {
        &&& self.esp_decal == 8 * idents(self.pf_exp@)
        &&& self.esp_decal <= i64::MAX - 8
    }

    /// An empty expression.
    pub fn new() -> (r: ExpTools)
        ensures
            r.wf(),
            r.stack() == Seq::<Seq<char>>::empty(),
            r.postfix() == Seq::<ExpToken>::empty(),
            r.esp() == 0,
            r.stars() == NO_TYPE,
    {
        let r = ExpTools { op_stack: Stack::new(), pf_exp: Vec::new(), esp_decal: 0, stars: NO_TYPE };
        assert(views(r.op_stack@) =~= Seq::<Seq<char>>::empty());
        r
    }

    /// Moves the operator on top of the stack to the postfix expression.
    fn push_op_val(&mut self)
        requires
            old(self).wf(),
            old(self).stack().len() > 0,
            op_id(old(self).stack().last()) is Some,
        ensures
            final(self).wf(),
            final(self).stack() == old(self).stack().drop_last(),
            final(self).postfix() == old(self).postfix().push(op_token(old(self).stack().last())),
            final(self).esp() == old(self).esp(),
            final(self).stars() == old(self).stars(),
    {
        let ghost st = self.stack();
        let top = self.op_stack.pop();
        assert(st.last() == top@);
        assert(views(self.op_stack@) =~= st.drop_last());
        let id = op_id_of(top.as_str());
        match id {
            Some(v) => {
                let ghost pf0 = self.pf_exp@;
                self.pf_exp.push(ExpToken::new(ExpTokenType::Operator, v));
                assert(self.pf_exp@.drop_last() == pf0);
            },
            None => {},
        }
    }

    /// An operator: those waiting that bind at least as much go first.
    pub fn new_operator(&mut self, content: String)
        requires
            old(self).wf(),
            pop_ops_while(old(self).stack(), old(self).postfix(), content@) is Some,
        ensures
            final(self).wf(),
            ({
                let t = pop_ops_while(old(self).stack(), old(self).postfix(), content@)->0;
                final(self).stack() == t.0.push(content@) && final(self).postfix() == t.1
            }),
            final(self).esp() == old(self).esp(),
            final(self).stars() == old(self).stars(),
    {
        let ghost target = pop_ops_while(self.stack(), self.postfix(), content@);
        let pc = get_priority(content.as_str());
        loop
            invariant_except_break
                target == pop_ops_while(self.stack(), self.postfix(), content@),
            invariant
                self.wf(),
                target is Some,
                self.esp() == old(self).esp(),
                self.stars() == old(self).stars(),
                match pc {
                    Some(p) => exp_priority(content@) == Some(p as int),
                    None => exp_priority(content@) is None,
                },
            ensures
                target == Some((self.stack(), self.postfix())),
            decreases self.stack().len(),
        {
            if self.op_stack.is_empty() {
                break;
            }
            let top = self.op_stack.val();
            assert(self.stack().last() == top@);
            if str_eq(top.as_str(), "(") {
                break;
            }
            let pt = get_priority(top.as_str());
            match (pt, pc) {
                (Some(a), Some(b)) => {
                    if a >= b {
                        self.push_op_val();
                    } else {
                        break;
                    }
                },
                _ => {
                    assert(false);
                    break;
                },
            }
        }
        let ghost st = self.stack();
        self.op_stack.push(content);
        assert(self.stack() =~= st.push(content@));
    }

    /// A number, read from its text.
    pub fn new_number(&mut self, number: String)
        requires
            old(self).wf(),
            spec_parse_i64(number@) is Some,
        ensures
            final(self).wf(),
            final(self).stack() == old(self).stack(),
            final(self).postfix() == old(self).postfix().push(
                ExpToken { token_type: ExpTokenType::Number, content: spec_parse_i64(number@)->0 },
            ),
            final(self).esp() == old(self).esp(),
            final(self).stars() == old(self).stars(),
    {
        let v = parse_i64(number.as_str());
        match v {
            Some(n) => {
                let ghost pf0 = self.pf_exp@;
                self.pf_exp.push(ExpToken::new(ExpTokenType::Number, n));
                assert(self.pf_exp@.drop_last() == pf0);
            },
            None => {},
        }
    }

    /// A parenthesis: an opening one waits on the stack; a closing one moves
    /// the operators above the opening one, which goes.
    pub fn new_parenthesis(&mut self, par: String)
        requires
            old(self).wf(),
            par@ == "("@ || (par@ == ")"@ && pop_to_paren(old(self).stack(), old(self).postfix()) is Some),
        ensures
            final(self).wf(),
            par@ == "("@ ==> final(self).stack() == old(self).stack().push(par@) && final(self).postfix()
                == old(self).postfix(),
            par@ != "("@ ==> (final(self).stack(), final(self).postfix()) == pop_to_paren(
                old(self).stack(),
                old(self).postfix(),
            )->0,
            final(self).esp() == old(self).esp(),
            final(self).stars() == old(self).stars(),
    {
        if str_eq(par.as_str(), "(") {
            let ghost st = self.stack();
            self.op_stack.push(par);
            assert(self.stack() =~= st.push("("@));
        } else {
            let ghost target = pop_to_paren(self.stack(), self.postfix());
            loop
                invariant
                    self.wf(),
                    target is Some,
                    target == pop_to_paren(self.stack(), self.postfix()),
                    self.esp() == old(self).esp(),
                    self.stars() == old(self).stars(),
                ensures
                    self.stack().len() > 0,
                    self.stack().last() == "("@,
                decreases self.stack().len(),
            {
                let top = self.op_stack.val();
                assert(self.stack().last() == top@);
                if str_eq(top.as_str(), "(") {
                    break;
                }
                self.push_op_val();
            }
            let ghost st = self.stack();
            let _ = self.op_stack.pop();
            assert(self.stack() =~= st.drop_last());
        }
    }

    /// An identifier, by its number of stars: the first one fixes the
    /// stars of the expression, another number of stars is an error.
    pub fn new_cident(&mut self, ident_stars: String) -> (r: Result<(), String>)
        requires
            old(self).wf(),
            spec_parse_i32(ident_stars@) is Some,
            old(self).esp() <= i64::MAX - 16,
        ensures
            final(self).wf(),
            final(self).stack() == old(self).stack(),
            ({
                let s = spec_parse_i32(ident_stars@)->0 as int;
                if old(self).stars() == NO_TYPE || s == old(self).stars() {
                    &&& r is Ok
                    &&& final(self).stars() == s
                    &&& final(self).postfix() == old(self).postfix().push(
                        ExpToken { token_type: ExpTokenType::Ident, content: old(self).esp() as i64 },
                    )
                    &&& final(self).esp() == old(self).esp() + 8
                } else {
                    &&& r is Err
                    &&& r->Err_0@ == "Bad type."@
                    &&& final(self).postfix() == old(self).postfix()
                    &&& final(self).esp() == old(self).esp()
                    &&& final(self).stars() == old(self).stars()
                }
            }),
    {
        let stars = match parse_i32(ident_stars.as_str()) {
            Some(s) => s,
            None => {
                assert(false);
                0
            },
        };
        if self.stars == NO_TYPE {
            self.stars = stars;
        } else if stars != self.stars {
            return Err(copy_str("Bad type."));
        }
        let ghost pf0 = self.pf_exp@;
        self.pf_exp.push(ExpToken::new(ExpTokenType::Ident, self.esp_decal));
        assert(self.pf_exp@.drop_last() == pf0);
        self.esp_decal = self.esp_decal + 8;
        Ok(())
    }

    /// The contents of the postfix expression's tokens, in order.
    pub fn _vec_exp(&self) -> (r: Vec<i64>)
        ensures
            r@ == self.postfix().map_values(|t: ExpToken| t.content),
    {
        let mut res: Vec<i64> = Vec::new();
        let mut i: usize = 0;
        while i < self.pf_exp.len()
            invariant
                i <= self.pf_exp@.len(),
                res@ == self.pf_exp@.take(i as int).map_values(|t: ExpToken| t.content),
            decreases self.pf_exp@.len() - i,
        {
            res.push(self.pf_exp[i].content);
            assert(self.pf_exp@.take(i + 1).map_values(|t: ExpToken| t.content) =~= self.pf_exp@.take(i as int).map_values(
                |t: ExpToken| t.content,
            ).push(self.pf_exp@[i as int].content));
            i += 1;
        }
        assert(self.pf_exp@.take(i as int) =~= self.pf_exp@);
        res
    }

    /// The assembly of the expression.
    pub fn build_asm(&self) -> (r: String)
        requires
            self.wf(),
        ensures
            r@ == spec_build_asm(self.postfix(), self.esp()),
    {
        let ghost pf = self.pf_exp@;
        let mut nb_ident: i64 = 1;
        let mut res = copy_str("\n");
        push_str(&mut res, "\nmov rbp, rsp");
        let mut i: usize = 0;
        proof {
            lemma_idents_prefix(pf, 0);
        }
        while i < self.pf_exp.len()
            invariant
                self.wf(),
                i <= pf.len(),
                pf == self.pf_exp@,
                nb_ident == idents(pf.take(i as int)) + 1,
                0 <= idents(pf.take(i as int)) <= idents(pf),
                res@ == "\n"@ + "\nmov rbp, rsp"@ + asm_body(pf.take(i as int), self.esp_decal as int),
            decreases pf.len() - i,
        {
            proof {
                lemma_idents_prefix(pf, i + 1);
                assert(pf.take(i + 1).drop_last() =~= pf.take(i as int));
                assert(pf.take(i + 1).last() == pf[i as int]);
            }
            let t = self.pf_exp[i];
            let n = t.content;
            match t.token_type {
                ExpTokenType::Operator => {
                    push_str(&mut res, "\nmov r12, ");
                    push_int(&mut res, n as i128);
                    push_str(&mut res, OP2);
                },
                ExpTokenType::Number => {
                    push_str(&mut res, "\npush ");
                    push_int(&mut res, n as i128);
                    push_str(&mut res, NUM2);
                },
                ExpTokenType::Ident => {
                    push_str(&mut res, ID1);
                    push_int(&mut res, (self.esp_decal - nb_ident * 8) as i128);
                    push_str(&mut res, ID2);
                    nb_ident += 1;
                },
            }
            i += 1;
        }
        proof {
            assert(pf.take(i as int) =~= pf);
        }
        if nb_ident != 0 {
            push_str(&mut res, "\npop rax\nadd rsp, ");
            push_int(&mut res, (nb_ident * 8) as i128);
            push_str(&mut res, "\npush rax");
        }
        proof {
            reveal_strlit("push rax            ; Then save the result\npop rax");
            reveal_strlit("push rax\npop rax");
        }
        let res = replace_str(res.as_str(), REMOVE_A, "");
        let res = replace_str(res.as_str(), REMOVE_B, "");
        res
    }

    /// The end of the expression: the operators left go, and the assembly
    /// is made; the stars of the expression and the assembly.
    pub fn end(&mut self) -> (r: Result<(String, String), String>)
        requires
            old(self).wf(),
            flush_ops(old(self).stack(), old(self).postfix()) is Some,
        ensures
            final(self).wf(),
            final(self).stack() == Seq::<Seq<char>>::empty(),
            final(self).postfix() == flush_ops(old(self).stack(), old(self).postfix())->0,
            r matches Ok((s, code)) && s@ == int_digits(old(self).stars()) && code@ == spec_build_asm(
                final(self).postfix(),
                final(self).esp(),
            ),
    {
        let ghost target = flush_ops(self.stack(), self.postfix());
        while self.op_stack.size() != 0
            invariant
                self.wf(),
                target is Some,
                target == flush_ops(self.stack(), self.postfix()),
                self.stars() == old(self).stars(),
            decreases self.stack().len(),
        {
            self.push_op_val();
        }
        let code = self.build_asm();
        let mut s = new_string();
        push_int(&mut s, self.stars as i128);
        Ok((s, code))
    }
}

/// The identifiers of a prefix are at most those of the whole.
pub proof fn lemma_idents_prefix(pf: Seq<ExpToken>, k: int)
    requires
        0 <= k <= pf.len(),
    ensures
        0 <= idents(pf.take(k)) <= idents(pf),
    decreases pf.len() - k,
{
    if k < pf.len() {
        lemma_idents_prefix(pf, k + 1);
        assert(pf.take(k + 1).drop_last() =~= pf.take(k));
    } else {
        assert(pf.take(k) =~= pf);
    }
    lemma_idents_nonneg(pf.take(k));
}

/// A number of identifiers is never negative.
pub proof fn lemma_idents_nonneg(pf: Seq<ExpToken>)
    ensures
        idents(pf) >= 0,
    decreases pf.len(),
{
    if pf.len() > 0 {
        lemma_idents_nonneg(pf.drop_last());
    }
}

} // verus!
