//! The decisions of the command-line front end: which command a line asks
//! for, how a master password is confirmed, how a list of names is shown,
//! how the save question is answered, and how a password length is read.

use vstd::prelude::*;

use crate::db_base::{name_key, views};
use crate::order::{compare_bytes, Order};
use crate::random::{has_each_class, is_password_char, random_password};
use vstd::string::StringSliceAdditionalSpecFns;
use vstd::utf8::encode_utf8_decode_utf8;

pub mod crypt_file;

verus! {

/// Checks that the master password was typed the same twice.
pub fn password_confirmation(first: String, second: String) -> (r: Result<String, String>)
    ensures
        r is Ok <==> first@ == second@,
        r matches Ok(p) ==> p@ == first@,
        r matches Err(msg) ==> msg@ == "passwords do not match"@,
{
    if first != second {
        return Err("passwords do not match".to_owned());
    }
    Ok(first)
}

/// What a command line asks for.
pub enum Command {
    Help,
    /// A key and, where given, the data to seal under it.
    Insert(Vec<u8>, Option<Vec<u8>>),
    Import(Vec<u8>),
    Export(Vec<u8>),
    Remove(Vec<u8>),
    /// A key and, where given, its new data.
    Replace(Vec<u8>, Option<Vec<u8>>),
    Rename(Vec<u8>, Vec<u8>),
    Get(Vec<u8>),
    /// List the names, or those holding the pattern where one is given.
    List(Option<Vec<u8>>),
    Search(Option<Vec<u8>>),
    Save(Vec<u8>),
    /// Generate a password of the given length.
    Pw(Vec<u8>),
    Exit,
    /// A command without its argument, with the message to show.
    Missing(String),
    Invalid,
    Nothing,
}

/// The meaning of a `Command`.
pub enum CommandView {
    Help,
    Insert(Seq<u8>, Option<Seq<u8>>),
    Import(Seq<u8>),
    Export(Seq<u8>),
    Remove(Seq<u8>),
    Replace(Seq<u8>, Option<Seq<u8>>),
    Rename(Seq<u8>, Seq<u8>),
    Get(Seq<u8>),
    List(Option<Seq<u8>>),
    Search(Option<Seq<u8>>),
    Save(Seq<u8>),
    Pw(Seq<u8>),
    Exit,
    Missing(Seq<char>),
    Invalid,
    Nothing,
}

impl View for Command {
    type V = CommandView;

    open spec fn view(&self) -> CommandView {
        match self {
            Command::Help => CommandView::Help,
            Command::Insert(k, d) => CommandView::Insert(k@, d.deep_view()),
            Command::Import(f) => CommandView::Import(f@),
            Command::Export(f) => CommandView::Export(f@),
            Command::Remove(k) => CommandView::Remove(k@),
            Command::Replace(k, d) => CommandView::Replace(k@, d.deep_view()),
            Command::Rename(a, b) => CommandView::Rename(a@, b@),
            Command::Get(k) => CommandView::Get(k@),
            Command::List(p) => CommandView::List(p.deep_view()),
            Command::Search(p) => CommandView::Search(p.deep_view()),
            Command::Save(f) => CommandView::Save(f@),
            Command::Pw(n) => CommandView::Pw(n@),
            Command::Exit => CommandView::Exit,
            Command::Missing(m) => CommandView::Missing(m@),
            Command::Invalid => CommandView::Invalid,
            Command::Nothing => CommandView::Nothing,
        }
    }
}

/// `w` is the word `s`.
pub open spec fn is_kw(w: Seq<u8>, s: Seq<char>) -> bool {
    w == name_key(s)
}

/// The `k`-th word, where there is one.
pub open spec fn word_at(words: Seq<Seq<u8>>, k: int) -> Option<Seq<u8>> {
    if 0 <= k < words.len() {
        Some(words[k])
    } else {
        None
    }
}

/// The command that the words of a line ask for: the first word names it,
/// the next ones are its arguments.
pub open spec fn command_of(words: Seq<Seq<u8>>) -> CommandView {
    if words.len() == 0 {
        CommandView::Nothing
    } else {
        let w = words[0];
        let one = words.len() > 1;
        if is_kw(w, "help"@) || is_kw(w, "h"@) {
            CommandView::Help
        } else if is_kw(w, "insert"@) || is_kw(w, "add"@) || is_kw(w, "i"@) || is_kw(w, "a"@) {
            if one {
                CommandView::Insert(words[1], word_at(words, 2))
            } else {
                CommandView::Missing("Expected a key"@)
            }
        } else if is_kw(w, "import"@) || is_kw(w, "im"@) {
            if one {
                CommandView::Import(words[1])
            } else {
                CommandView::Missing("Expected a file"@)
            }
        } else if is_kw(w, "export"@) || is_kw(w, "ex"@) {
            if one {
                CommandView::Export(words[1])
            } else {
                CommandView::Missing("Expected a file"@)
            }
        } else if is_kw(w, "remove"@) || is_kw(w, "rm"@) {
            if one {
                CommandView::Remove(words[1])
            } else {
                CommandView::Missing("Expected a key"@)
            }
        } else if is_kw(w, "replace"@) {
            if one {
                CommandView::Replace(words[1], word_at(words, 2))
            } else {
                CommandView::Missing("Expected a key"@)
            }
        } else if is_kw(w, "rename"@) {
            if words.len() > 2 {
                CommandView::Rename(words[1], words[2])
            } else {
                CommandView::Missing("Expected rename <name> <name>"@)
            }
        } else if is_kw(w, "get"@) || is_kw(w, "g"@) {
            if one {
                CommandView::Get(words[1])
            } else {
                CommandView::Missing("Expected a key"@)
            }
        } else if is_kw(w, "list"@) || is_kw(w, "ls"@) {
            CommandView::List(word_at(words, 1))
        } else if is_kw(w, "search"@) {
            CommandView::Search(word_at(words, 1))
        } else if is_kw(w, "save"@) || is_kw(w, "s"@) {
            if one {
                CommandView::Save(words[1])
            } else {
                CommandView::Missing("Expected a filename"@)
            }
        } else if is_kw(w, "pw"@) {
            if one {
                CommandView::Pw(words[1])
            } else {
                CommandView::Missing("Expected a length"@)
            }
        } else if is_kw(w, "exit"@) || is_kw(w, "quit"@) || is_kw(w, "q"@) {
            CommandView::Exit
        } else {
            CommandView::Invalid
        }
    }
}

fn is_word(w: &[u8], s: &str) -> (r: bool)
    ensures
        r == is_kw(w@, s@),
{
    match compare_bytes(w, s.as_bytes()) {
        Order::Equal => true,
        _ => false,
    }
}

fn copy_word(words: &Vec<Vec<u8>>, k: usize) -> (w: Vec<u8>)
    requires
        k < words@.len(),
    ensures
        w@ == words.deep_view()[k as int],
{
    vstd::slice::slice_to_vec(words[k].as_slice())
}

fn word_after(words: &Vec<Vec<u8>>, k: usize) -> (w: Option<Vec<u8>>)
    ensures
        w.deep_view() == word_at(words.deep_view(), k as int),
{
    if k < words.len() {
        Some(copy_word(words, k))
    } else {
        None
    }
}

/// The command that the words of a line ask for.
pub fn parse_command(words: &Vec<Vec<u8>>) -> (c: Command)
    ensures
        c@ == command_of(words.deep_view()),
{
    if words.len() == 0 {
        return Command::Nothing;
    }
    let w = words[0].as_slice();
    let one = words.len() > 1;
    assert(words.deep_view()[0] == w@);
    if is_word(w, "help") || is_word(w, "h") {
        Command::Help
    } else if is_word(w, "insert") || is_word(w, "add") || is_word(w, "i") || is_word(w, "a") {
        if one {
            Command::Insert(copy_word(words, 1), word_after(words, 2))
        } else {
            Command::Missing("Expected a key".to_owned())
        }
    } else if is_word(w, "import") || is_word(w, "im") {
        if one {
            Command::Import(copy_word(words, 1))
        } else {
            Command::Missing("Expected a file".to_owned())
        }
    } else if is_word(w, "export") || is_word(w, "ex") {
        if one {
            Command::Export(copy_word(words, 1))
        } else {
            Command::Missing("Expected a file".to_owned())
        }
    } else if is_word(w, "remove") || is_word(w, "rm") {
        if one {
            Command::Remove(copy_word(words, 1))
        } else {
            Command::Missing("Expected a key".to_owned())
        }
    } else if is_word(w, "replace") {
        if one {
            Command::Replace(copy_word(words, 1), word_after(words, 2))
        } else {
            Command::Missing("Expected a key".to_owned())
        }
    } else if is_word(w, "rename") {
        if words.len() > 2 {
            Command::Rename(copy_word(words, 1), copy_word(words, 2))
        } else {
            Command::Missing("Expected rename <name> <name>".to_owned())
        }
    } else if is_word(w, "get") || is_word(w, "g") {
        if one {
            Command::Get(copy_word(words, 1))
        } else {
            Command::Missing("Expected a key".to_owned())
        }
    } else if is_word(w, "list") || is_word(w, "ls") {
        Command::List(word_after(words, 1))
    } else if is_word(w, "search") {
        Command::Search(word_after(words, 1))
    } else if is_word(w, "save") || is_word(w, "s") {
        if one {
            Command::Save(copy_word(words, 1))
        } else {
            Command::Missing("Expected a filename".to_owned())
        }
    } else if is_word(w, "pw") {
        if one {
            Command::Pw(copy_word(words, 1))
        } else {
            Command::Missing("Expected a length".to_owned())
        }
    } else if is_word(w, "exit") || is_word(w, "quit") || is_word(w, "q") {
        Command::Exit
    } else {
        Command::Invalid
    }
}

/// Two names are the same exactly when their UTF-8 bytes are.
pub proof fn lemma_name_key_injective(x: Seq<char>, y: Seq<char>)
    ensures
        name_key(x) == name_key(y) <==> x == y,
{
    encode_utf8_decode_utf8(x);
    encode_utf8_decode_utf8(y);
}

/// A command's kind is fixed by its keyword, the line's first word, and its
/// arguments are the words that follow: `export` or `ex` with a file asks
/// for that file to be exported, `import` or `im` for it to be imported,
/// and so on for every keyword; a keyword without its argument asks for
/// nothing but a message, an unknown first word is invalid, and an empty
/// line asks for nothing.
pub proof fn lemma_keyword_fixes_command(words: Seq<Seq<u8>>, keyword: Seq<char>)
    requires
        words.len() > 0,
        words[0] == name_key(keyword),
    ensures
        command_of(Seq::<Seq<u8>>::empty()) == CommandView::Nothing,
        keyword == "help"@ || keyword == "h"@ ==> command_of(words) == CommandView::Help,
        keyword == "insert"@ || keyword == "add"@ || keyword == "i"@ || keyword == "a"@ ==> command_of(words) == (
        if words.len() > 2 {
            CommandView::Insert(words[1], Some(words[2]))
        } else if words.len() == 2 {
            CommandView::Insert(words[1], None)
        } else {
            CommandView::Missing("Expected a key"@)
        }),
        keyword == "import"@ || keyword == "im"@ ==> command_of(words) == (if words.len() > 1 {
            CommandView::Import(words[1])
        } else {
            CommandView::Missing("Expected a file"@)
        }),
        keyword == "export"@ || keyword == "ex"@ ==> command_of(words) == (if words.len() > 1 {
            CommandView::Export(words[1])
        } else {
            CommandView::Missing("Expected a file"@)
        }),
        keyword == "remove"@ || keyword == "rm"@ ==> command_of(words) == (if words.len() > 1 {
            CommandView::Remove(words[1])
        } else {
            CommandView::Missing("Expected a key"@)
        }),
        keyword == "replace"@ ==> command_of(words) == (if words.len() > 2 {
            CommandView::Replace(words[1], Some(words[2]))
        } else if words.len() == 2 {
            CommandView::Replace(words[1], None)
        } else {
            CommandView::Missing("Expected a key"@)
        }),
        keyword == "rename"@ ==> command_of(words) == (if words.len() > 2 {
            CommandView::Rename(words[1], words[2])
        } else {
            CommandView::Missing("Expected rename <name> <name>"@)
        }),
        keyword == "get"@ || keyword == "g"@ ==> command_of(words) == (if words.len() > 1 {
            CommandView::Get(words[1])
        } else {
            CommandView::Missing("Expected a key"@)
        }),
        keyword == "list"@ || keyword == "ls"@ ==> command_of(words) == (if words.len() > 1 {
            CommandView::List(Some(words[1]))
        } else {
            CommandView::List(None)
        }),
        keyword == "search"@ ==> command_of(words) == (if words.len() > 1 {
            CommandView::Search(Some(words[1]))
        } else {
            CommandView::Search(None)
        }),
        keyword == "save"@ || keyword == "s"@ ==> command_of(words) == (if words.len() > 1 {
            CommandView::Save(words[1])
        } else {
            CommandView::Missing("Expected a filename"@)
        }),
        keyword == "pw"@ ==> command_of(words) == (if words.len() > 1 {
            CommandView::Pw(words[1])
        } else {
            CommandView::Missing("Expected a length"@)
        }),
        keyword == "exit"@ || keyword == "quit"@ || keyword == "q"@ ==> command_of(words) == CommandView::Exit,
        !(keyword == "help"@ || keyword == "h"@ || keyword == "insert"@ || keyword == "add"@ || keyword == "i"@
            || keyword == "a"@ || keyword == "import"@ || keyword == "im"@ || keyword == "export"@ || keyword
            == "ex"@ || keyword == "remove"@ || keyword == "rm"@ || keyword == "replace"@ || keyword == "rename"@
            || keyword == "get"@ || keyword == "g"@ || keyword == "list"@ || keyword == "ls"@ || keyword
            == "search"@ || keyword == "save"@ || keyword == "s"@ || keyword == "pw"@ || keyword == "exit"@
            || keyword == "quit"@ || keyword == "q"@) ==> command_of(words) == CommandView::Invalid,
{
    reveal_strlit("help");
    reveal_strlit("h");
    reveal_strlit("insert");
    reveal_strlit("add");
    reveal_strlit("i");
    reveal_strlit("a");
    reveal_strlit("import");
    reveal_strlit("im");
    reveal_strlit("export");
    reveal_strlit("ex");
    reveal_strlit("remove");
    reveal_strlit("rm");
    reveal_strlit("replace");
    reveal_strlit("rename");
    reveal_strlit("get");
    reveal_strlit("g");
    reveal_strlit("list");
    reveal_strlit("ls");
    reveal_strlit("search");
    reveal_strlit("save");
    reveal_strlit("s");
    reveal_strlit("pw");
    reveal_strlit("exit");
    reveal_strlit("quit");
    reveal_strlit("q");
    assert forall|y: Seq<char>| #[trigger] is_kw(words[0], y) <==> keyword == y by {
        lemma_name_key_injective(keyword, y);
    }
    // Keywords of equal length differ at some position.
    assert("import"@[1] != "insert"@[1]);
    assert("rename"@[0] != "insert"@[0]);
    assert("rename"@[0] != "import"@[0]);
    assert("rename"@[0] != "export"@[0]);
    assert("rename"@[2] != "remove"@[2]);
}

/// The names joined by `", "`.
pub open spec fn joined(names: Seq<Seq<char>>) -> Seq<char>
    decreases names.len(),
{
    if names.len() <= 1 {
        if names.len() == 1 {
            names[0]
        } else {
            Seq::empty()
        }
    } else {
        joined(names.drop_last()) + ", "@ + names.last()
    }
}

/// The line that lists `names`: each name, separated by `", "`; an empty
/// list gives an empty line.
pub fn join_names(names: &Vec<String>) -> (line: String)
    ensures
        line@ == joined(views(names@)),
{
    let ghost all = views(names@);
    if names.len() == 0 {
        assert(all =~= Seq::<Seq<char>>::empty());
        return String::new();
    }
    let mut line = names[0].clone();
    let mut i: usize = 1;
    assert(all.take(1).drop_last() =~= Seq::<Seq<char>>::empty());
    while i < names.len()
        invariant
            1 <= i <= names@.len(),
            all == views(names@),
            line@ == joined(all.take(i as int)),
        decreases names@.len() - i,
    {
        assert(all.take(i + 1).drop_last() =~= all.take(i as int));
        line = line.concat(", ").concat(names[i].as_str());
        i = i + 1;
    }
    assert(all.take(i as int) =~= all);
    line
}

/// ASCII letters in lower case, other bytes as they are.
pub open spec fn ascii_lower(b: Seq<u8>) -> Seq<u8> {
    Seq::new(b.len(), |i: int| if 65 <= b[i] <= 90 { (b[i] + 32) as u8 } else { b[i] })
}

/// The answer that a reply word gives to the question whether to save a
/// changed vault, case aside.
pub open spec fn answer_of(word: Seq<u8>) -> Option<bool> {
    let w = ascii_lower(word);
    if is_kw(w, "y"@) || is_kw(w, "yes"@) {
        Some(true)
    } else if is_kw(w, "n"@) || is_kw(w, "no"@) {
        Some(false)
    } else {
        None
    }
}

/// The answer to the question whether to save a changed vault, from the
/// first word of the reply: `Some(true)` for yes, `Some(false)` for no, and
/// `None` where the question must be asked again.
pub fn save_answer(word: &str) -> (answer: Option<bool>)
    ensures
        answer == answer_of(word.spec_bytes()),
{
    let bytes = word.as_bytes();
    let mut lower: Vec<u8> = Vec::new();
    let mut i: usize = 0;
    while i < bytes.len()
        invariant
            i <= bytes@.len(),
            lower@ =~= ascii_lower(bytes@).take(i as int),
        decreases bytes@.len() - i,
    {
        let b = bytes[i];
        if 65 <= b && b <= 90 {
            lower.push(b + 32);
        } else {
            lower.push(b);
        }
        i = i + 1;
    }
    assert(lower@ =~= ascii_lower(bytes@));
    let w = lower.as_slice();
    if is_word(w, "y") || is_word(w, "yes") {
        Some(true)
    } else if is_word(w, "n") || is_word(w, "no") {
        Some(false)
    } else {
        None
    }
}

/// The value of a string of decimal digits.
pub open spec fn decimal(d: Seq<u8>) -> nat
    decreases d.len(),
{
    if d.len() == 0 {
        0
    } else {
        decimal(d.drop_last()) * 10 + (d.last() - 48) as nat
    }
}

/// Every byte is an ASCII digit.
pub open spec fn all_digits(d: Seq<u8>) -> bool {
    forall|i: int| 0 <= i < d.len() ==> 48 <= #[trigger] d[i] <= 57
}

/// What `str::parse::<usize>` gives for the text `s`: an optional `+`, then
/// one or more decimal digits whose value fits a `usize`; nothing otherwise.
pub open spec fn parsed_usize(s: Seq<u8>) -> Option<usize> {
    let d = if s.len() > 0 && s[0] == 43 {
        s.drop_first()
    } else {
        s
    };
    if d.len() > 0 && all_digits(d) && decimal(d) <= usize::MAX {
        Some(decimal(d) as usize)
    } else {
        None
    }
}

/// `str::parse::<usize>`, as its documentation describes it: an optional
/// `+` followed by decimal digits only, whose value fits a `usize`.
#[verifier::external_body]
fn parse_usize(s: &str) -> (r: Option<usize>)
    ensures
        r == parsed_usize(s.spec_bytes()),
{
    s.parse::<usize>().ok()
}

/// `r` is a password of `n` characters, each a digit, letter or symbol,
/// with one of each kind.
pub open spec fn generated(r: Result<String, String>, n: nat) -> bool {
    &&& r is Ok
    &&& r->Ok_0@.len() == n
    &&& has_each_class(r->Ok_0@)
    &&& forall|i: int| 0 <= i < n ==> is_password_char(#[trigger] r->Ok_0@[i])
}

/// A random password of the length written in `length`: the password, or
/// the line that reports why there is none.
pub fn generate_password(length: &str) -> (r: Result<String, String>)
    requires
        parsed_usize(length.spec_bytes()) matches Some(n) ==> n <= isize::MAX,
    ensures
        parsed_usize(length.spec_bytes()) is None ==> (r matches Err(msg) && msg@ == "Invalid length input"@),
        parsed_usize(length.spec_bytes()) matches Some(n) && n == 0 ==> (r matches Err(msg) && msg@
            == "Failed to generate password: "@ + "The length of passwords cannot be 0."@),
        parsed_usize(length.spec_bytes()) matches Some(n) && 0 < n < 4 ==> (r matches Err(msg) && msg@
            == "Failed to generate password: "@ + "The length of passwords is too short."@),
        parsed_usize(length.spec_bytes()) matches Some(n) ==> (n >= 4 ==> generated(r, n as nat)),
{
    let n = match parse_usize(length) {
        Some(n) => n,
        None => return Err("Invalid length input".to_owned()),
    };
    match random_password(n) {
        Ok(password) => Ok(password),
        Err(error) => Err("Failed to generate password: ".to_owned().concat(error.as_str())),
    }
}

} // verus!
