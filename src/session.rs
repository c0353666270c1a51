//! What the read-eval loop does with one line of input.
use vstd::prelude::*;

use crate::command::Command;
use crate::parser::{resolve, resolved_as, CommandParser};
use crate::text::{chars_of, strip_bounds, trim};
use crate::tokenizer::{lex, Tokenizer};

verus! {

/// What to do with one line of input.
pub enum LineStep {
    /// Leave the loop, saving the history.
    Quit,
    /// Run the command, then record its text in the history.
    Execute(Command),
    /// Report the error and read the next line.
    Reject(String),
}

pub open spec fn exit_word() -> Seq<char> {
    seq!['e', 'x', 'i', 't']
}

pub open spec fn quit_word() -> Seq<char> {
    seq!['q', 'u', 'i', 't']
}

fn span_is(v: &Vec<char>, a: usize, b: usize, word: &str) -> (r: bool)
    requires
        a <= b <= v@.len(),
    ensures
        r == (v@.subrange(a as int, b as int) == word@),
{
    let chars = chars_of(word);
    if b - a != chars.len() {
        return false;
    }
    let mut i: usize = 0;
    while i < chars.len()
        invariant
            0 <= i <= chars@.len(),
            chars@ == word@,
            b - a == chars@.len(),
            a <= b <= v@.len(),
            forall|j: int| 0 <= j < i ==> v@[a + j] == chars@[j],
        decreases chars@.len() - i,
    {
        if v[a + i] != chars[i] {
            assert(v@.subrange(a as int, b as int)[i as int] != word@[i as int]);
            return false;
        }
        i = i + 1;
    }
    assert(v@.subrange(a as int, b as int) =~= word@);
    true
}

/// A line that reads `exit` or `quit`, whitespace aside, ends the loop; any
/// other is scanned and resolved into a command, or rejected with the
/// resolver's error.
pub fn interpret(line: String) -> (r: LineStep)
    ensures
        (trim(line@) == exit_word() || trim(line@) == quit_word()) ==> r is Quit,
        !(trim(line@) == exit_word() || trim(line@) == quit_word()) ==> match resolve(
            lex(line@),
        ) {
            Ok(res) => r is Execute && resolved_as(r->Execute_0, res),
            Err(e) => r is Reject && r->Reject_0@ == e,
        },
{
    let chars = chars_of(line.as_str());
    let (a, b) = strip_bounds(&chars, 0, chars.len(), false);
    assert(chars@.subrange(0, chars@.len() as int) == line@);
    proof {
        reveal_strlit("exit");
        reveal_strlit("quit");
        assert("exit"@ =~= exit_word());
        assert("quit"@ =~= quit_word());
    }
    if span_is(&chars, a, b, "exit") || span_is(&chars, a, b, "quit") {
        return LineStep::Quit;
    }
    let mut tokenizer = Tokenizer::new(line);
    tokenizer.scan_tokens();
    let mut parser = CommandParser::new(tokenizer.into_tokens());
    match parser.parse() {
        Ok(cmd) => LineStep::Execute(cmd),
        Err(e) => LineStep::Reject(e),
    }
}

} // verus!
