//! The bytecode compiler: a tree of grammar matches to bytecode.
//!
//! The tree is what a grammar-driven parser hands over: each match names the
//! rule that matched, holds the text it matched, and holds the matches inside
//! it in order.

use vstd::prelude::*;
use crate::bytecode::{Bytecode, BytecodeEmitter, Opcode, le_bytes, length_field, texts};
use crate::text::{Strip, strip, stripped};

verus! {

/// The rules that the compiler tells apart.
#[derive(Debug, Clone, Copy, PartialEq, Eq, Structural)]
pub enum Rule {
    Program,
    LogStmt,
    FuncDef,
    Eoi,
    Comment,
    Ws,
    Newline,
    /// Any rule that the compiler has no code for.
    Other,
}

/// One match of a rule.
#[derive(Debug, PartialEq, Eq)]
pub struct Pair {
    pub rule: Rule,
    pub text: String,
    pub inner: Vec<Pair>,
}

/// The mathematical value of a [`Pair`].
pub struct PairView {
    pub rule: Rule,
    pub text: Seq<char>,
    pub inner: Seq<PairView>,
}

/// The value of a match: its rule, its text, and the values of the matches inside it.
pub open spec fn pair_view(pair: Pair) -> PairView
    decreases pair,
{
    PairView {
        rule: pair.rule,
        text: pair.text@,
        inner: Seq::new(
            pair.inner.len() as nat,
            |i: int|
                if 0 <= i < pair.inner.len() {
                    pair_view(pair.inner[i])
                } else {
                    arbitrary()
                },
        ),
    }
}

impl View for Pair {
    type V = PairView;

    open spec fn view(&self) -> PairView {
        pair_view(*self)
    }
}

/// A text without the quotes at its beginning and at its end.
pub open spec fn trim_quotes(text: Seq<char>) -> Seq<char> {
    stripped(Strip::Quotes, text)
}

/// Code and constants while they are built.
pub struct Emitted {
    pub code: Seq<u8>,
    pub constants: Seq<Seq<char>>,
}

/// Whether the compiler can take a match: each log statement in it, outside
/// the parts that are passed over, holds the match of its string.
pub open spec fn compilable(pair: PairView) -> bool
    decreases pair,
{
    match pair.rule {
        Rule::Program => compilable_from(pair.inner, 0),
        Rule::FuncDef => compilable_from(pair.inner, 2),
        Rule::LogStmt => pair.inner.len() > 0,
        _ => true,
    }
}

/// [`compilable`] for the matches from `from` on.
pub open spec fn compilable_from(pairs: Seq<PairView>, from: int) -> bool
    decreases pairs, pairs.len() - from,
{
    0 <= from < pairs.len() ==> compilable(pairs[from]) && compilable_from(pairs, from + 1)
}

/// What a match adds to the code and the constants.
///
/// - A program adds what each match in it adds, in order.
/// - A log statement adds the text of its first match, without the quotes
///   around it, as a constant, and the code to push that constant and log it.
/// - A function adds `BeginFunc`, what each match after its first two adds, and
///   `EndFunc`.
/// - Any other match adds nothing.
pub open spec fn compile_spec(pair: PairView, before: Emitted) -> Emitted
    decreases pair,
{
    match pair.rule {
        Rule::Program => compile_from(pair.inner, 0, before),
        Rule::LogStmt => Emitted {
            code: before.code.push(Opcode::PushConst.byte_spec()) + le_bytes(
                length_field(before.constants.len()),
            ) + seq![Opcode::LogString.byte_spec()],
            constants: before.constants.push(trim_quotes(pair.inner[0].text)),
        },
        Rule::FuncDef => {
            let begun = Emitted { code: before.code.push(Opcode::BeginFunc.byte_spec()), ..before };
            let body = compile_from(pair.inner, 2, begun);
            Emitted { code: body.code.push(Opcode::EndFunc.byte_spec()), ..body }
        },
        _ => before,
    }
}

/// What the matches from `from` on add, one after the other.
pub open spec fn compile_from(pairs: Seq<PairView>, from: int, before: Emitted) -> Emitted
    decreases pairs, pairs.len() - from,
{
    if 0 <= from < pairs.len() {
        compile_from(pairs, from + 1, compile_spec(pairs[from], before))
    } else {
        before
    }
}

/// `text` without the quotes at its beginning and at its end.
pub fn trim_matches_quote(text: &str) -> (inner: String)
    ensures
        inner@ == trim_quotes(text@),
{
    strip(Strip::Quotes, text)
}

/// The values of a sequence of matches, in order.
pub open spec fn pair_views(pairs: Seq<Pair>) -> Seq<PairView> {
    Seq::new(pairs.len(), |i: int| pairs[i]@)
}

/// The matches inside a match's value are the values of the matches inside it.
pub proof fn lemma_view_inner(pair: &Pair)
    ensures
        pair@.inner == pair_views(pair.inner@),
        pair@.rule == pair.rule,
        pair@.text == pair.text@,
{
    assert(pair@.inner =~= pair_views(pair.inner@));
}

/// Tells whether the matches of `pairs` from `from` on can be compiled.
fn are_compilable(pairs: &Vec<Pair>, from: usize) -> (yes: bool)
    ensures
        yes == compilable_from(pair_views(pairs@), from as int),
    decreases pairs, 0int,
{
    let ghost views = pair_views(pairs@);
    let mut i: usize = from;
    while i < pairs.len()
        invariant
            views == pair_views(pairs@),
            compilable_from(views, from as int) == compilable_from(views, i as int),
        decreases pairs.len() - i,
    {
        if !is_compilable(&pairs[i]) {
            return false;
        }
        i += 1;
    }
    true
}

/// Tells whether the compiler can take a match: whether each log statement in
/// it, outside the parts that are passed over, holds the match of its string.
pub fn is_compilable(pair: &Pair) -> (yes: bool)
    ensures
        yes == compilable(pair@),
    decreases pair, 1int,
{
    proof {
        lemma_view_inner(pair);
    }
    match pair.rule {
        Rule::Program => are_compilable(&pair.inner, 0),
        Rule::FuncDef => are_compilable(&pair.inner, 2),
        Rule::LogStmt => pair.inner.len() > 0,
        _ => true,
    }
}

/// Compiles a tree of matches to bytecode.
pub struct Compiler {
    emitter: BytecodeEmitter,
}

impl Compiler {
    /// The code and the constants compiled so far.
    pub closed spec fn emitted(&self) -> Emitted {
        Emitted { code: self.emitter.code(), constants: self.emitter.constants() }
    }

    /// A compiler that has compiled nothing.
    pub fn new() -> (compiler: Compiler)
        ensures
            compiler.emitted() == (Emitted { code: Seq::empty(), constants: Seq::empty() }),
    {
        Compiler { emitter: BytecodeEmitter::new() }
    }

    /// Compiles the matches of `pairs` from `from` on.
    fn compile_inner(&mut self, pairs: &Vec<Pair>, from: usize)
        requires
            compilable_from(pair_views(pairs@), from as int),
        ensures
            final(self).emitted() == compile_from(pair_views(pairs@), from as int, old(self).emitted()),
        decreases pairs, 0int,
    {
        let ghost views = pair_views(pairs@);
        let mut i: usize = from;
        while i < pairs.len()
            invariant
                views == pair_views(pairs@),
                compilable_from(views, i as int),
                compile_from(views, i as int, self.emitted()) == compile_from(
                    views,
                    from as int,
                    old(self).emitted(),
                ),
            decreases pairs.len() - i,
        {
            self.compile_pair(&pairs[i]);
            i += 1;
        }
    }

    /// Compiles one match and the matches inside it. [`is_compilable`] tells
    /// whether a match can be compiled.
    pub fn compile_pair(&mut self, pair: &Pair)
        requires
            compilable(pair@),
        ensures
            final(self).emitted() == compile_spec(pair@, old(self).emitted()),
        decreases pair, 1int,
    {
        proof {
            lemma_view_inner(pair);
        }
        match pair.rule {
            Rule::Program => {
                self.compile_inner(&pair.inner, 0);
            },
            Rule::LogStmt => {
                let s = trim_matches_quote(pair.inner[0].text.as_str());
                let idx = self.emitter.add_constant(s);
                self.emitter.emit(Opcode::PushConst);
                self.emitter.emit_u32((idx as u64 % 0x1_0000_0000u64) as u32);
                self.emitter.emit(Opcode::LogString);
                proof {
                    lemma_view_inner(&pair.inner[0]);
                    let before = old(self).emitted();
                    assert(self.emitted().code =~= before.code.push(Opcode::PushConst.byte_spec())
                        + le_bytes(length_field(before.constants.len())) + seq![
                        Opcode::LogString.byte_spec(),
                    ]);
                }
            },
            Rule::FuncDef => {
                self.emitter.emit(Opcode::BeginFunc);
                self.compile_inner(&pair.inner, 2);
                self.emitter.emit(Opcode::EndFunc);
            },
            _ => {},
        }
    }

    /// The bytecode that was compiled.
    pub fn finish(self) -> (bytecode: Bytecode)
        ensures
            bytecode.code@ == self.emitted().code,
            texts(bytecode.constants@) == self.emitted().constants,
    {
        self.emitter.finish()
    }
}

} // verus!
