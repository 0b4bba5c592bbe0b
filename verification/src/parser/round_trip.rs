use super::ast::display;
use super::ast::statements::StatementView;
use super::built;
use super::built::{lemma_tidy_block, tidy_block};
use super::error::ErrorView;
use super::grammar::program;
use super::printed::{
    legible_block, lemma_printed_lines, lemma_spell_front_statements,
};
use super::spelling;
use super::spelling::{plain_block, spell_statements};
use crate::lexer::round_trip::lemma_tokens_produced;
use crate::lexer::token::TokenView;
use crate::lexer::{run_len, tokens, Run};
use vstd::prelude::*;

verus! {

/// The parser reads a program back from the text that the printer writes
/// for it: the text of statements, each on a line, lexes and parses to the
/// statements. The statements hold names and string literals such as the
/// lexer reads, no line break in a string literal, no negative integer
/// literal and no hash literal with entries.
pub proof fn lemma_parse_printed(list: Seq<StatementView>)
    requires
        plain_block(list),
        legible_block(list),
    ensures
        program(
            tokens(display::lines(list, list.len() as int)),
            Seq::empty(),
        ) == Ok::<Seq<StatementView>, ErrorView>(list),
{
    let n = list.len() as int;
    let text = display::lines(list, n);
    lemma_printed_lines(list, n, 0, Seq::empty());
    assert(text + Seq::<char>::empty() =~= text);
    assert(tokens(Seq::<char>::empty()) =~= Seq::<TokenView>::empty()) by {
        assert(run_len(Run::Blank, Seq::<char>::empty()) == 0);
    }
    lemma_spell_front_statements(list, n);
    assert(spell_statements(list, n) =~= Seq::<TokenView>::empty());
    assert(tokens(text) =~= spell_statements(list, 0));
    spelling::lemma_program(list, 0, Seq::empty());
    assert(Seq::<StatementView>::empty() + list.skip(0) =~= list);
}

/// The parser reads every program that it builds back from the text that
/// the printer writes for it, but for what the printer's text cannot give
/// back: where `text` parses to statements that hold no hash literal with
/// entries and no string literal with a line break, the text of these
/// statements, each on a line, parses to the same statements.
pub proof fn lemma_parse_display_parse(text: Seq<char>, list: Seq<StatementView>)
    requires
        program(tokens(text), Seq::empty()) == Ok::<Seq<StatementView>, ErrorView>(
            list,
        ),
        tidy_block(list),
    ensures
        program(
            tokens(display::lines(list, list.len() as int)),
            Seq::empty(),
        ) == Ok::<Seq<StatementView>, ErrorView>(list),
{
    lemma_tokens_produced(text);
    built::lemma_program(tokens(text), Seq::empty());
    lemma_tidy_block(list);
    lemma_parse_printed(list);
}

} // verus!
