//! The command language: one line of text, split at single spaces, whose
//! first word names the command and whose other words are its arguments.

use vstd::prelude::*;
use vstd::slice::slice_subrange;
use crate::fraction::{parse_fraction, spec_parse_fraction, Fraction};
use crate::text::{parse_u32, spec_parse_u32, spec_split, split, string_of, texts, to_chars};

verus! {

/// A command, with its arguments read.
#[derive(Debug, PartialEq, Eq)]
pub enum Command {
    Add(CommandAdd),
    Show(CommandShow),
    Remove(CommandRemove),
    Import(CommandImport),
    Gpa(CommandGpa),
    Drop(CommandDrop),
    Save(CommandSave),
    Expect(CommandExpect),
    Quit,
    History,
}

/// Why a line is no command.
#[derive(Debug, PartialEq, Eq)]
pub enum CommandError {
    /// The command takes `expected` arguments and was given `actual`.
    IncorrectNumberOfArguments { expected: usize, actual: usize },
    /// The argument `value` is not of the kind that the command takes.
    ParseError { value: String },
    /// The first word of the line `value` names no command.
    UnknownCommand { value: String },
    /// The line is empty.
    NoCommandProvided,
}

/// A `CommandError` with its texts as sequences of characters.
pub enum CommandErrorView {
    IncorrectNumberOfArguments { expected: usize, actual: usize },
    ParseError { value: Seq<char> },
    UnknownCommand { value: Seq<char> },
    NoCommandProvided,
}

impl View for CommandError {
    type V = CommandErrorView;

    open spec fn view(&self) -> CommandErrorView {
        match *self {
            CommandError::IncorrectNumberOfArguments { expected, actual } => {
                CommandErrorView::IncorrectNumberOfArguments { expected, actual }
            },
            CommandError::ParseError { value } => CommandErrorView::ParseError { value: value@ },
            CommandError::UnknownCommand { value } => CommandErrorView::UnknownCommand {
                value: value@,
            },
            CommandError::NoCommandProvided => CommandErrorView::NoCommandProvided,
        }
    }
}

/// `add <points> <credit>`: record a subject result.
#[derive(Debug, Clone, Copy, PartialEq, Eq)]
pub struct CommandAdd {
    pub points: u32,
    pub credit: u32,
}

/// `show`: list the entries.
#[derive(Debug, Clone, Copy, PartialEq, Eq)]
pub struct CommandShow {}

/// `remove <index>`: take the entry at a position out.
#[derive(Debug, Clone, Copy, PartialEq, Eq)]
pub struct CommandRemove {
    pub index: usize,
}

/// `import <filename>`: replace the entries by those of a file.
#[derive(Debug, PartialEq, Eq)]
pub struct CommandImport {
    pub filename: String,
}

/// `gpa`: report the grade-point average.
#[derive(Debug, Clone, Copy, PartialEq, Eq)]
pub struct CommandGpa {}

/// `drop`: forget all entries.
#[derive(Debug, Clone, Copy, PartialEq, Eq)]
pub struct CommandDrop {}

/// `save <filename>`: store the entries in a file.
#[derive(Debug, PartialEq, Eq)]
pub struct CommandSave {
    pub filename: String,
}

/// `expect <target> <credit>`: project the points that one more subject
/// must bring for the average to reach a target.
#[derive(Debug, Clone, Copy, PartialEq, Eq)]
pub struct CommandExpect {
    pub expected_gpa: Fraction,
    pub credit: u32,
}

/// A `Command` with its texts as sequences of characters.
pub enum CommandView {
    Add(CommandAdd),
    Show,
    Remove(CommandRemove),
    Import { filename: Seq<char> },
    Gpa,
    Drop,
    Save { filename: Seq<char> },
    Expect(CommandExpect),
    Quit,
    History,
}

impl View for Command {
    type V = CommandView;

    open spec fn view(&self) -> CommandView {
        match *self {
            Command::Add(c) => CommandView::Add(c),
            Command::Show(_) => CommandView::Show,
            Command::Remove(c) => CommandView::Remove(c),
            Command::Import(c) => CommandView::Import { filename: c.filename@ },
            Command::Gpa(_) => CommandView::Gpa,
            Command::Drop(_) => CommandView::Drop,
            Command::Save(c) => CommandView::Save { filename: c.filename@ },
            Command::Expect(c) => CommandView::Expect(c),
            Command::Quit => CommandView::Quit,
            Command::History => CommandView::History,
        }
    }
}

/// What a fallible result is, with the error taken by its view.
pub open spec fn parsed<T>(r: Result<T, CommandError>) -> Result<T, CommandErrorView> {
    match r {
        Ok(v) => Ok(v),
        Err(e) => Err(e@),
    }
}

/// The complaint about a wrong count of arguments, if the count is wrong.
pub open spec fn spec_check_num_args(expected: usize, actual: usize) -> Result<
    (),
    CommandErrorView,
> {
    if expected != actual {
        Err(CommandErrorView::IncorrectNumberOfArguments { expected, actual })
    } else {
        Ok(())
    }
}

/// The unsigned 32-bit number that the argument `s` writes, or the
/// complaint that names the argument.
pub open spec fn spec_parse_int(s: Seq<char>) -> Result<u32, CommandErrorView> {
    match spec_parse_u32(s) {
        Some(n) => Ok(n),
        None => Err(CommandErrorView::ParseError { value: s }),
    }
}

/// The fraction that the argument `s` writes as a decimal literal, or the
/// complaint that names the argument.
pub open spec fn spec_parse_float(s: Seq<char>) -> Result<Fraction, CommandErrorView> {
    match spec_parse_fraction(s) {
        Some(f) => Ok(f),
        None => Err(CommandErrorView::ParseError { value: s }),
    }
}

/// Accepts a count of arguments that is the expected one.
pub fn check_num_args(expected: usize, actual: usize) -> (r: Result<(), CommandError>)
    ensures
        parsed(r) == spec_check_num_args(expected, actual),
{
    if expected != actual {
        Err(CommandError::IncorrectNumberOfArguments { expected, actual })
    } else {
        Ok(())
    }
}

/// Reads an argument as an unsigned 32-bit number.
pub fn parse_int(s: &[char]) -> (r: Result<u32, CommandError>)
    ensures
        parsed(r) == spec_parse_int(s@),
{
    match parse_u32(s) {
        Some(value) => Ok(value),
        None => Err(CommandError::ParseError { value: string_of(s) }),
    }
}

/// Reads an argument as a decimal literal.
pub fn parse_float(s: &[char]) -> (r: Result<Fraction, CommandError>)
    ensures
        parsed(r) == spec_parse_float(s@),
{
    match parse_fraction(s) {
        Some(value) => Ok(value),
        None => Err(CommandError::ParseError { value: string_of(s) }),
    }
}

impl CommandAdd {
    /// The command that the arguments `literals` give.
    pub open spec fn spec_new(literals: Seq<Seq<char>>) -> Result<CommandAdd, CommandErrorView> {
        match spec_check_num_args(2, literals.len() as usize) {
            Err(e) => Err(e),
            Ok(_) => match spec_parse_int(literals[0]) {
                Err(e) => Err(e),
                Ok(points) => match spec_parse_int(literals[1]) {
                    Err(e) => Err(e),
                    Ok(credit) => Ok(CommandAdd { points, credit }),
                },
            },
        }
    }

    /// Reads the arguments of `add`: the points, then the credit.
    pub fn new(literals: &[Vec<char>]) -> (r: Result<Self, CommandError>)
        ensures
            parsed(r) == Self::spec_new(texts(literals@)),
    {
        match check_num_args(2, literals.len()) {
            Err(e) => { return Err(e); },
            Ok(_) => {},
        }
        let points = match parse_int(literals[0].as_slice()) {
            Err(e) => { return Err(e); },
            Ok(v) => v,
        };
        let credit = match parse_int(literals[1].as_slice()) {
            Err(e) => { return Err(e); },
            Ok(v) => v,
        };
        Ok(Self { points, credit })
    }
}

impl CommandShow {
    /// The command that the arguments `literals` give.
    pub open spec fn spec_new(literals: Seq<Seq<char>>) -> Result<CommandShow, CommandErrorView> {
        match spec_check_num_args(0, literals.len() as usize) {
            Err(e) => Err(e),
            Ok(_) => Ok(CommandShow {  }),
        }
    }

    /// Accepts the arguments of `show`: none.
    pub fn new(literals: &[Vec<char>]) -> (r: Result<Self, CommandError>)
        ensures
            parsed(r) == Self::spec_new(texts(literals@)),
    {
        match check_num_args(0, literals.len()) {
            Err(e) => Err(e),
            Ok(_) => Ok(Self {  }),
        }
    }
}

impl CommandRemove {
    /// The command that the arguments `literals` give.
    pub open spec fn spec_new(literals: Seq<Seq<char>>) -> Result<CommandRemove, CommandErrorView> {
        match spec_check_num_args(1, literals.len() as usize) {
            Err(e) => Err(e),
            Ok(_) => match spec_parse_int(literals[0]) {
                Err(e) => Err(e),
                Ok(index) => Ok(CommandRemove { index: index as usize }),
            },
        }
    }

    /// Reads the argument of `remove`: the position.
    pub fn new(literals: &[Vec<char>]) -> (r: Result<Self, CommandError>)
        ensures
            parsed(r) == Self::spec_new(texts(literals@)),
    {
        match check_num_args(1, literals.len()) {
            Err(e) => { return Err(e); },
            Ok(_) => {},
        }
        match parse_int(literals[0].as_slice()) {
            Err(e) => Err(e),
            Ok(index) => Ok(Self { index: index as usize }),
        }
    }
}

/// The file name that the arguments `literals` give to a command that
/// takes one.
pub open spec fn spec_filename(literals: Seq<Seq<char>>) -> Result<Seq<char>, CommandErrorView> {
    match spec_check_num_args(1, literals.len() as usize) {
        Err(e) => Err(e),
        Ok(_) => Ok(literals[0]),
    }
}

impl CommandImport {
    /// Reads the argument of `import`: the file name, taken as it stands.
    pub fn new(literals: &[Vec<char>]) -> (r: Result<Self, CommandError>)
        ensures
            match r {
                Ok(c) => spec_filename(texts(literals@)) == Ok::<Seq<char>, CommandErrorView>(
                    c.filename@,
                ),
                Err(e) => spec_filename(texts(literals@)) == Err::<Seq<char>, CommandErrorView>(e@),
            },
    {
        match check_num_args(1, literals.len()) {
            Err(e) => Err(e),
            Ok(_) => Ok(Self { filename: string_of(literals[0].as_slice()) }),
        }
    }
}

impl CommandGpa {
    /// The command that the arguments `literals` give.
    pub open spec fn spec_new(literals: Seq<Seq<char>>) -> Result<CommandGpa, CommandErrorView> {
        match spec_check_num_args(0, literals.len() as usize) {
            Err(e) => Err(e),
            Ok(_) => Ok(CommandGpa {  }),
        }
    }

    /// Accepts the arguments of `gpa`: none.
    pub fn new(literals: &[Vec<char>]) -> (r: Result<Self, CommandError>)
        ensures
            parsed(r) == Self::spec_new(texts(literals@)),
    {
        match check_num_args(0, literals.len()) {
            Err(e) => Err(e),
            Ok(_) => Ok(Self {  }),
        }
    }
}

impl CommandDrop {
    /// The command that the arguments `literals` give.
    pub open spec fn spec_new(literals: Seq<Seq<char>>) -> Result<CommandDrop, CommandErrorView> {
        match spec_check_num_args(0, literals.len() as usize) {
            Err(e) => Err(e),
            Ok(_) => Ok(CommandDrop {  }),
        }
    }

    /// Accepts the arguments of `drop`: none.
    pub fn new(literals: &[Vec<char>]) -> (r: Result<Self, CommandError>)
        ensures
            parsed(r) == Self::spec_new(texts(literals@)),
    {
        match check_num_args(0, literals.len()) {
            Err(e) => Err(e),
            Ok(_) => Ok(Self {  }),
        }
    }
}

impl CommandSave {
    /// Reads the argument of `save`: the file name, taken as it stands.
    pub fn new(literals: &[Vec<char>]) -> (r: Result<Self, CommandError>)
        ensures
            match r {
                Ok(c) => spec_filename(texts(literals@)) == Ok::<Seq<char>, CommandErrorView>(
                    c.filename@,
                ),
                Err(e) => spec_filename(texts(literals@)) == Err::<Seq<char>, CommandErrorView>(e@),
            },
    {
        match check_num_args(1, literals.len()) {
            Err(e) => Err(e),
            Ok(_) => Ok(Self { filename: string_of(literals[0].as_slice()) }),
        }
    }
}

impl CommandExpect {
    /// The command that the arguments `literals` give.
    pub open spec fn spec_new(literals: Seq<Seq<char>>) -> Result<CommandExpect, CommandErrorView> {
        match spec_check_num_args(2, literals.len() as usize) {
            Err(e) => Err(e),
            Ok(_) => match spec_parse_float(literals[0]) {
                Err(e) => Err(e),
                Ok(expected_gpa) => match spec_parse_int(literals[1]) {
                    Err(e) => Err(e),
                    Ok(credit) => Ok(CommandExpect { expected_gpa, credit }),
                },
            },
        }
    }

    /// Reads the arguments of `expect`: the target, then the credit.
    pub fn new(literals: &[Vec<char>]) -> (r: Result<Self, CommandError>)
        ensures
            parsed(r) == Self::spec_new(texts(literals@)),
    {
        match check_num_args(2, literals.len()) {
            Err(e) => { return Err(e); },
            Ok(_) => {},
        }
        let expected_gpa = match parse_float(literals[0].as_slice()) {
            Err(e) => { return Err(e); },
            Ok(v) => v,
        };
        let credit = match parse_int(literals[1].as_slice()) {
            Err(e) => { return Err(e); },
            Ok(v) => v,
        };
        Ok(Self { expected_gpa, credit })
    }
}

/// A command built from the result of reading its arguments.
pub open spec fn lift<T>(r: Result<T, CommandErrorView>, wrap: spec_fn(T) -> CommandView) -> Result<
    CommandView,
    CommandErrorView,
> {
    match r {
        Ok(c) => Ok(wrap(c)),
        Err(e) => Err(e),
    }
}

/// The command that the line `line` gives. An empty line gives no
/// command. Otherwise the line is split at every single space; the first
/// piece selects the command, exactly and with regard to case, and the
/// other pieces are its arguments. `q`, `quit`, `h` and `history` are
/// taken whatever follows them.
pub open spec fn spec_command(line: Seq<char>) -> Result<CommandView, CommandErrorView> {
    let data = spec_split(line, ' ');
    let command = data[0];
    let arguments = data.skip(1);
    if line.len() == 0 {
        Err(CommandErrorView::NoCommandProvided)
    } else if command == "q"@ || command == "quit"@ {
        Ok(CommandView::Quit)
    } else if command == "h"@ || command == "history"@ {
        Ok(CommandView::History)
    } else if command == "add"@ {
        lift(CommandAdd::spec_new(arguments), |c: CommandAdd| CommandView::Add(c))
    } else if command == "show"@ {
        lift(CommandShow::spec_new(arguments), |c: CommandShow| CommandView::Show)
    } else if command == "remove"@ {
        lift(CommandRemove::spec_new(arguments), |c: CommandRemove| CommandView::Remove(c))
    } else if command == "import"@ {
        lift(spec_filename(arguments), |f: Seq<char>| CommandView::Import { filename: f })
    } else if command == "gpa"@ {
        lift(CommandGpa::spec_new(arguments), |c: CommandGpa| CommandView::Gpa)
    } else if command == "drop"@ {
        lift(CommandDrop::spec_new(arguments), |c: CommandDrop| CommandView::Drop)
    } else if command == "save"@ {
        lift(spec_filename(arguments), |f: Seq<char>| CommandView::Save { filename: f })
    } else if command == "expect"@ {
        lift(CommandExpect::spec_new(arguments), |c: CommandExpect| CommandView::Expect(c))
    } else {
        Err(CommandErrorView::UnknownCommand { value: line })
    }
}

/// Whether `token` is the word `word`.
pub fn is_word(token: &[char], word: &str) -> (b: bool)
    ensures
        b == (token@ == word@),
{
    let mut i: usize = 0;
    for c in it: word.chars()
        invariant
            it.seq() == word@,
            i == it.index(),
            i <= token@.len(),
            token@.take(i as int) == word@.take(i as int),
    {
        if i >= token.len() {
            return false;
        }
        if token[i] != c {
            return false;
        }
        assert(token@.take(i + 1) =~= token@.take(i as int).push(token@[i as int]));
        assert(word@.take(i + 1) =~= word@.take(i as int).push(word@[i as int]));
        i += 1;
    }
    assert(word@.take(i as int) =~= word@);
    if i == token.len() {
        assert(token@.take(i as int) =~= token@);
        true
    } else {
        false
    }
}

impl Command {
    /// Reads one line as a command.
    pub fn new(command_lit: &str) -> (r: Result<Self, CommandError>)
        ensures
            match r {
                Ok(c) => spec_command(command_lit@) == Ok::<CommandView, CommandErrorView>(c@),
                Err(e) => spec_command(command_lit@) == Err::<CommandView, CommandErrorView>(e@),
            },
    {
        let chars = to_chars(command_lit);
        if chars.len() == 0 {
            return Err(CommandError::NoCommandProvided);
        }
        let data = split(chars.as_slice(), ' ');
        proof {
            crate::text::lemma_split_nonempty(command_lit@, ' ');
            assert(texts(data@).len() == data@.len());
            assert(texts(data@)[0] == data@[0]@);
            assert(texts(data@.subrange(1, data@.len() as int)) =~= texts(data@).skip(1));
        }
        let command = data[0].as_slice();
        let arguments = slice_subrange(data.as_slice(), 1, data.len());
        if is_word(command, "q") || is_word(command, "quit") {
            Ok(Command::Quit)
        } else if is_word(command, "h") || is_word(command, "history") {
            Ok(Command::History)
        } else if is_word(command, "add") {
            match CommandAdd::new(arguments) {
                Ok(c) => Ok(Command::Add(c)),
                Err(e) => Err(e),
            }
        } else if is_word(command, "show") {
            match CommandShow::new(arguments) {
                Ok(c) => Ok(Command::Show(c)),
                Err(e) => Err(e),
            }
        } else if is_word(command, "remove") {
            match CommandRemove::new(arguments) {
                Ok(c) => Ok(Command::Remove(c)),
                Err(e) => Err(e),
            }
        } else if is_word(command, "import") {
            match CommandImport::new(arguments) {
                Ok(c) => Ok(Command::Import(c)),
                Err(e) => Err(e),
            }
        } else if is_word(command, "gpa") {
            match CommandGpa::new(arguments) {
                Ok(c) => Ok(Command::Gpa(c)),
                Err(e) => Err(e),
            }
        } else if is_word(command, "drop") {
            match CommandDrop::new(arguments) {
                Ok(c) => Ok(Command::Drop(c)),
                Err(e) => Err(e),
            }
        } else if is_word(command, "save") {
            match CommandSave::new(arguments) {
                Ok(c) => Ok(Command::Save(c)),
                Err(e) => Err(e),
            }
        } else if is_word(command, "expect") {
            match CommandExpect::new(arguments) {
                Ok(c) => Ok(Command::Expect(c)),
                Err(e) => Err(e),
            }
        } else {
            Err(CommandError::UnknownCommand { value: command_lit.to_owned() })
        }
    }
}

} // verus!
