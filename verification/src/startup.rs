//! What the installer writes: the arguments that restart the guard with its
//! settings, the hidden launcher script, the sign-in command, and the reports
//! shown to the user.
use vstd::prelude::*;
use crate::cli::Settings;

verus! {

/// The character for a decimal digit.
pub open spec fn digit_char(d: nat) -> char {
    if d == 0 {
        '0'
    } else if d == 1 {
        '1'
    } else if d == 2 {
        '2'
    } else if d == 3 {
        '3'
    } else if d == 4 {
        '4'
    } else if d == 5 {
        '5'
    } else if d == 6 {
        '6'
    } else if d == 7 {
        '7'
    } else if d == 8 {
        '8'
    } else {
        '9'
    }
}

/// The decimal text of a number, without leading zeros.
pub open spec fn decimal(n: nat) -> Seq<char>
    decreases n,
{
    if n < 10 {
        seq![digit_char(n)]
    } else {
        decimal(n / 10).push(digit_char(n % 10))
    }
}

/// The one-character text of a decimal digit.
fn digit_text(d: u8) -> (s: &'static str)
    requires
        d < 10,
    ensures
        s@ == seq![digit_char(d as nat)],
{
    if d == 0 {
        proof { reveal_strlit("0"); }
        "0"
    } else if d == 1 {
        proof { reveal_strlit("1"); }
        "1"
    } else if d == 2 {
        proof { reveal_strlit("2"); }
        "2"
    } else if d == 3 {
        proof { reveal_strlit("3"); }
        "3"
    } else if d == 4 {
        proof { reveal_strlit("4"); }
        "4"
    } else if d == 5 {
        proof { reveal_strlit("5"); }
        "5"
    } else if d == 6 {
        proof { reveal_strlit("6"); }
        "6"
    } else if d == 7 {
        proof { reveal_strlit("7"); }
        "7"
    } else if d == 8 {
        proof { reveal_strlit("8"); }
        "8"
    } else {
        proof { reveal_strlit("9"); }
        "9"
    }
}

/// The decimal text of a byte, as `u8::to_string` writes it.
pub fn decimal_text(n: u8) -> (s: String)
    ensures
        s@ == decimal(n as nat),
{
    let mut s = String::new();
    if n >= 100 {
        s.append(digit_text(n / 100));
    }
    if n >= 10 {
        s.append(digit_text((n / 10) % 10));
    }
    s.append(digit_text(n % 10));
    proof {
        reveal_with_fuel(decimal, 3);
        if n >= 100 {
            assert(decimal((n / 10) as nat) =~= seq![digit_char((n / 100) as nat), digit_char(((n / 10) % 10) as nat)]);
        }
        assert(s@ =~= decimal(n as nat));
    }
    s
}

/// The arguments that start the guard with the given settings: `run`, the
/// target volume, and a switch for each option that is on.
pub open spec fn argument_words(settings: Settings) -> Seq<Seq<char>> {
    seq!["run"@, "--volume"@, decimal(settings.volume as nat)] + (if settings.cap {
        seq!["--cap"@]
    } else {
        seq![]
    }) + (if settings.include_existing {
        seq!["--include-existing"@]
    } else {
        seq![]
    }) + (if settings.include_system {
        seq!["--include-system"@]
    } else {
        seq![]
    })
}

/// The text of each string, in order.
pub open spec fn texts(strings: Seq<String>) -> Seq<Seq<char>> {
    strings.map_values(|s: String| s@)
}

/// The command-line arguments that run the guard with `settings`.
pub fn settings_arguments(settings: &Settings) -> (r: Vec<String>)
    ensures
        texts(r@) == argument_words(*settings),
{
    let mut arguments: Vec<String> = Vec::new();
    arguments.push(String::from_str("run"));
    arguments.push(String::from_str("--volume"));
    arguments.push(decimal_text(settings.volume));
    let ghost words = seq!["run"@, "--volume"@, decimal(settings.volume as nat)];
    assert(texts(arguments@) =~= words);
    if settings.cap {
        arguments.push(String::from_str("--cap"));
        proof { words = words + seq!["--cap"@]; }
    }
    assert(texts(arguments@) =~= words);
    if settings.include_existing {
        arguments.push(String::from_str("--include-existing"));
        proof { words = words + seq!["--include-existing"@]; }
    }
    assert(texts(arguments@) =~= words);
    if settings.include_system {
        arguments.push(String::from_str("--include-system"));
        proof { words = words + seq!["--include-system"@]; }
    }
    assert(texts(arguments@) =~= words);
    assert(words =~= argument_words(*settings));
    arguments
}

/// The words separated by `sep`.
pub open spec fn joined(words: Seq<Seq<char>>, sep: Seq<char>) -> Seq<char>
    decreases words.len(),
{
    if words.len() == 0 {
        seq![]
    } else if words.len() == 1 {
        words[0]
    } else {
        joined(words.drop_last(), sep) + sep + words.last()
    }
}

/// The command the launcher runs: the executable in double quotes, a space,
/// and the arguments separated by spaces.
pub open spec fn command_line(executable: Seq<char>, arguments: Seq<Seq<char>>) -> Seq<char> {
    seq!['"'] + executable + seq!['"', ' '] + joined(arguments, seq![' '])
}

/// The text with every double quote doubled, as a string literal of the
/// launcher's script language writes a double quote.
pub open spec fn quotes_doubled(text: Seq<char>) -> Seq<char>
    decreases text.len(),
{
    if text.len() == 0 {
        seq![]
    } else {
        quotes_doubled(text.drop_last()) + (if text.last() == '"' {
            seq!['"', '"']
        } else {
            seq![text.last()]
        })
    }
}

/// The script that runs `command` with its window hidden, without waiting.
pub open spec fn launcher_text(command: Seq<char>) -> Seq<char> {
    "Set shell = CreateObject(\"WScript.Shell\")\r\nshell.Run \""@ + quotes_doubled(command)
        + "\", 0, False\r\n"@
}

/// The strings of `words` separated by `sep`.
fn join_words(words: &[String], sep: &str) -> (r: String)
    ensures
        r@ == joined(texts(words@), sep@),
{
    let mut r = String::new();
    let n = words.len();
    let mut i: usize = 0;
    while i < n
        invariant
            n == words@.len(),
            i <= n,
            r@ == joined(texts(words@.take(i as int)), sep@),
        decreases n - i,
    {
        let ghost before = texts(words@.take(i as int));
        assert(texts(words@.take(i + 1)).drop_last() =~= before);
        assert(texts(words@.take(i + 1)).last() == words@[i as int]@);
        if i > 0 {
            r.append(sep);
        } else {
            assert(texts(words@.take(i + 1)) =~= seq![words@[i as int]@]);
        }
        r.append(words[i].as_str());
        i = i + 1;
    }
    assert(words@.take(n as int) =~= words@);
    r
}

/// The text with every double quote doubled.
fn double_quotes(text: &str) -> (r: String)
    ensures
        r@ == quotes_doubled(text@),
{
    let mut r = String::new();
    let n = text.unicode_len();
    let mut i: usize = 0;
    proof { reveal_strlit("\"\""); }
    while i < n
        invariant
            n == text@.len(),
            i <= n,
            r@ == quotes_doubled(text@.take(i as int)),
            "\"\""@ == seq!['"', '"'],
        decreases n - i,
    {
        assert(text@.take(i + 1).drop_last() =~= text@.take(i as int));
        let c = text.get_char(i);
        if c == '"' {
            r.append("\"\"");
        } else {
            let one = text.substring_char(i, i + 1);
            assert(one@ =~= seq![c]);
            r.append(one);
        }
        i = i + 1;
    }
    assert(text@.take(n as int) =~= text@);
    r
}

/// The command that the launcher runs: the executable in double quotes,
/// then the arguments, each after a space.
pub fn launcher_command(executable: &str, arguments: &[String]) -> (r: String)
    ensures
        r@ == command_line(executable@, texts(arguments@)),
{
    proof {
        reveal_strlit("\"");
        reveal_strlit("\" ");
        reveal_strlit(" ");
    }
    let mut r = String::from_str("\"");
    r.append(executable);
    r.append("\" ");
    let joined_arguments = join_words(arguments, " ");
    r.append(joined_arguments.as_str());
    assert(" "@ =~= seq![' ']);
    assert(r@ =~= command_line(executable@, texts(arguments@)));
    r
}

/// The script of the hidden launcher: it runs the guard's command with its
/// window hidden. Every double quote of the command is doubled, as the
/// script's string literal needs.
pub fn hidden_launcher_script(executable: &str, arguments: &[String]) -> (r: String)
    ensures
        r@ == launcher_text(command_line(executable@, texts(arguments@))),
{
    let command = launcher_command(executable, arguments);
    let mut script = String::from_str("Set shell = CreateObject(\"WScript.Shell\")\r\nshell.Run \"");
    let escaped = double_quotes(command.as_str());
    script.append(escaped.as_str());
    script.append("\", 0, False\r\n");
    script
}

/// The command that starts the launcher at sign-in.
pub open spec fn startup_text(launcher: Seq<char>) -> Seq<char> {
    "wscript.exe \""@ + launcher + "\""@
}

/// The command registered to start the launcher at sign-in.
pub fn startup_command(launcher: &str) -> (r: String)
    ensures
        r@ == startup_text(launcher@),
{
    let mut r = String::from_str("wscript.exe \"");
    r.append(launcher);
    r.append("\"");
    r
}

/// A relative path of plain names on every platform: the text does not
/// start with `/` and holds no `\`, no `:` (which starts a drive prefix) and
/// no `.` (which could make a piece the current or the parent directory), so
/// each piece between `/` separators is an ordinary name.
pub open spec fn is_plain_relative(text: Seq<char>) -> bool {
    &&& (text.len() == 0 || text[0] != '/')
    &&& forall|i: int|
        0 <= i < text.len() ==> #[trigger] text[i] != '\\' && text[i] != ':' && text[i] != '.'
}

/// The names of `text`, read after the unfinished name `piece`: the pieces
/// between `/` separators, empty pieces dropped.
pub open spec fn names_after(text: Seq<char>, piece: Seq<char>) -> Seq<Seq<char>>
    decreases text.len(),
{
    let done = if piece.len() == 0 {
        Seq::<Seq<char>>::empty()
    } else {
        seq![piece]
    };
    if text.len() == 0 {
        done
    } else if text[0] == '/' {
        done + names_after(text.drop_first(), seq![])
    } else {
        names_after(text.drop_first(), piece.push(text[0]))
    }
}

/// The names of a path text: the pieces between `/` separators, with the
/// empty pieces that repeated and trailing separators leave dropped.
pub open spec fn slash_names(text: Seq<char>) -> Seq<Seq<char>> {
    names_after(text, seq![])
}

/// What is left of a path text once separators (`/`, `\`) and dots are
/// dropped and ASCII capitals are written in lower case: the characters of
/// its names and of its prefix, in order.
pub open spec fn path_letters(text: Seq<char>) -> Seq<char>
    decreases text.len(),
{
    if text.len() == 0 {
        seq![]
    } else {
        let c = text.last();
        path_letters(text.drop_last()) + (if c == '/' || c == '\\' || c == '.' {
            Seq::<char>::empty()
        } else if 'A' <= c <= 'Z' {
            seq![(c as int + 32) as char]
        } else {
            seq![c]
        })
    }
}

/// What holds of `same`, the answer of `Path` equality for the texts `a` and
/// `b`: equal texts are the same path; the same path has the same letters
/// (so paths whose names differ, as two different directories do, are not
/// the same path); and two relative paths of plain names are the same path
/// exactly when they list the same names.
pub open spec fn path_answer_holds(a: Seq<char>, b: Seq<char>, same: bool) -> bool {
    &&& a == b ==> same
    &&& same ==> path_letters(a) == path_letters(b)
    &&& is_plain_relative(a) && is_plain_relative(b) ==> (same == (slash_names(a) == slash_names(
        b,
    )))
}

/// Equality of two paths given as text, by std's `Path` equality
/// (`<Path as PartialEq>::eq`), which compares the paths component by
/// component. Stated: equal texts are equal paths; and, as the documentation
/// of `Path::components` gives for every platform (`/` separates on each, a
/// repeated or a trailing separator is ignored), two relative texts without
/// `\`, drive colons or dots are equal paths exactly when their names,
/// split at `/`, are the same. And equal paths have the same letters: the
/// documentation of `Path::components` says that, besides separators, `.`
/// components and a trailing separator, no other normalization takes place,
/// and a prefix compares by its parts (a drive letter regardless of case), so
/// the characters other than separators and dots, read without case, are
/// kept. Left unsaid: which other different texts with the same letters are
/// equal paths; that depends on the platform's path syntax (its separators
/// and prefixes).
#[verifier::external_body]
fn paths_equal(left: &str, right: &str) -> (r: bool)
    ensures
        path_answer_holds(left@, right@, r),
{
    std::path::Path::new(left) == std::path::Path::new(right)
}

/// Whether two paths name the same file: their canonical forms are compared
/// where both could be found, and the paths as given otherwise.
/// `left_canonical` and `right_canonical` are the canonical forms, or `None`
/// where the path could not be canonicalized.
pub fn same_path(
    left: &str,
    right: &str,
    left_canonical: Option<&str>,
    right_canonical: Option<&str>,
) -> (r: bool)
    ensures
        (left_canonical, right_canonical) matches (Some(l), Some(c)) ==> path_answer_holds(
            l@,
            c@,
            r,
        ),
        !(left_canonical is Some && right_canonical is Some) ==> path_answer_holds(
            left@,
            right@,
            r,
        ),
{
    match (left_canonical, right_canonical) {
        (Some(l), Some(c)) => paths_equal(l, c),
        _ => paths_equal(left, right),
    }
}

/// The status lines: whether automatic start is registered, and whether the
/// guard process is running.
pub open spec fn status_text(automatic_start: bool, running: bool) -> Seq<char> {
    "Automatic start: "@ + (if automatic_start {
        "enabled"@
    } else {
        "disabled"@
    }) + "\nGuard process: "@ + (if running {
        "running"@
    } else {
        "not running"@
    })
}

/// The report of the `status` command.
pub fn status_report(automatic_start: bool, running: bool) -> (r: String)
    ensures
        r@ == status_text(automatic_start, running),
{
    let mut r = String::from_str("Automatic start: ");
    if automatic_start {
        r.append("enabled");
    } else {
        r.append("disabled");
    }
    r.append("\nGuard process: ");
    if running {
        r.append("running");
    } else {
        r.append("not running");
    }
    r
}

/// The line printed once the guard is installed.
pub open spec fn install_text(installed_exe: Seq<char>, volume: u8) -> Seq<char> {
    "Installed for this user at "@ + installed_exe + " (new-session volume: "@ + decimal(
        volume as nat,
    ) + "%)."@
}

/// The report of the `install` command.
pub fn install_report(installed_exe: &str, volume: u8) -> (r: String)
    ensures
        r@ == install_text(installed_exe@, volume),
{
    let mut r = String::from_str("Installed for this user at ");
    r.append(installed_exe);
    r.append(" (new-session volume: ");
    let digits = decimal_text(volume);
    r.append(digits.as_str());
    r.append("%).");
    r
}

/// The lines printed once automatic start is disabled.
pub open spec fn uninstall_text(executable: Seq<char>) -> Seq<char> {
    "Automatic start disabled and the running guard was asked to stop.\nThe executable remains at "@
        + executable + " and may be deleted manually."@
}

/// The report of the `uninstall` command.
pub fn uninstall_report(executable: &str) -> (r: String)
    ensures
        r@ == uninstall_text(executable@),
{
    let mut r = String::from_str(
        "Automatic start disabled and the running guard was asked to stop.\nThe executable remains at ",
    );
    r.append(executable);
    r.append(" and may be deleted manually.");
    r
}

/// The number that a text of decimal digits stands for.
spec fn digits_value(text: Seq<char>) -> int
    decreases text.len(),
{
    if text.len() == 0 {
        0
    } else {
        digits_value(text.drop_last()) * 10 + (text.last() as int - '0' as int)
    }
}

/// The decimal text of a number below 1000 reads back as the number and has
/// at most three characters.
proof fn lemma_decimal(n: nat)
    requires
        n < 1000,
    ensures
        digits_value(decimal(n)) == n,
        1 <= decimal(n).len() <= 3,
        n < 100 ==> decimal(n).len() <= 2,
        n < 10 ==> decimal(n).len() == 1,
    decreases n,
{
    let d = n % 10;
    assert(digit_char(d) as int - '0' as int == d);
    if n >= 10 {
        lemma_decimal(n / 10);
        let front = decimal(n / 10);
        assert(decimal(n) == front.push(digit_char(d)));
        assert(decimal(n).drop_last() =~= front);
        assert(n == (n / 10) * 10 + d);
    } else {
        assert(decimal(n).drop_last() =~= Seq::<char>::empty());
        assert(digits_value(Seq::<char>::empty()) == 0);
    }
}

/// No argument word of the guard contains a double quote.
proof fn lemma_plain_words(settings: Settings)
    ensures
        forall|k: int| #![auto]
            0 <= k < argument_words(settings).len() ==> !argument_words(settings)[k].contains(
                '"',
            ),
{
    reveal_strlit("run");
    reveal_strlit("--volume");
    reveal_strlit("--cap");
    reveal_strlit("--include-existing");
    reveal_strlit("--include-system");
    let v = decimal(settings.volume as nat);
    assert forall|k: int| 0 <= k < v.len() implies '0' <= #[trigger] v[k] <= '9' by {
        lemma_decimal_digits(settings.volume as nat, k);
    }
    let w = argument_words(settings);
    assert forall|k: int| 0 <= k < w.len() implies !#[trigger] w[k].contains('"') by {
        if w[k] == v && v.contains('"') {
            let j = choose|j: int| 0 <= j < v.len() && v[j] == '"';
        }
    }
}

/// Every character of a decimal text is a digit.
proof fn lemma_decimal_digits(n: nat, k: int)
    requires
        0 <= k < decimal(n).len(),
    ensures
        '0' <= decimal(n)[k] <= '9',
    decreases n,
{
    if n >= 10 && k < decimal(n).len() - 1 {
        lemma_decimal_digits(n / 10, k);
    }
}

/// The launcher passes the guard's arguments through untouched: doubling the
/// quotes of its command doubles only the quotes around the executable and
/// those within its path, so the script runs `"executable" run --volume ...`
/// with exactly the argument words of the settings.
pub proof fn law_launcher_keeps_arguments(executable: Seq<char>, settings: Settings)
    ensures
        quotes_doubled(command_line(executable, argument_words(settings))) == seq!['"', '"']
            + quotes_doubled(executable) + seq!['"', '"', ' '] + joined(
            argument_words(settings),
            seq![' '],
        ),
{
    lemma_plain_words(settings);
    let w = argument_words(settings);
    lemma_joined_plain(w);
    let rest = joined(w, seq![' ']);
    lemma_quotes_doubled_concat(seq!['"'] + executable + seq!['"', ' '], rest);
    lemma_quotes_doubled_concat(seq!['"'] + executable, seq!['"', ' ']);
    lemma_quotes_doubled_concat(seq!['"'], executable);
    lemma_quotes_doubled_plain(rest);
    reveal_with_fuel(quotes_doubled, 3);
    assert(seq!['"', ' '].drop_last() =~= seq!['"']);
    assert(seq!['"'].drop_last() =~= Seq::<char>::empty());
    assert(command_line(executable, w) =~= seq!['"'] + executable + seq!['"', ' '] + rest);
}

/// Distinct settings give distinct arguments: the command that the launcher
/// runs determines the settings the guard restarts with.
pub proof fn law_arguments_determine_settings(a: Settings, b: Settings)
    requires
        argument_words(a) == argument_words(b),
    ensures
        a == b,
{
    reveal_strlit("--cap");
    reveal_strlit("--include-existing");
    reveal_strlit("--include-system");
    let wa = argument_words(a);
    let wb = argument_words(b);
    assert(wa[2] == decimal(a.volume as nat));
    assert(wb[2] == decimal(b.volume as nat));
    lemma_decimal(a.volume as nat);
    lemma_decimal(b.volume as nat);
    assert(a.volume == b.volume);
    let fa = wa.skip(3);
    let fb = wb.skip(3);
    assert(fa == fb);
    let cap = seq!["--cap"@];
    let existing = seq!["--include-existing"@];
    let system = seq!["--include-system"@];
    let none = Seq::<Seq<char>>::empty();
    assert(fa =~= (if a.cap { cap } else { none }) + (if a.include_existing { existing } else { none })
        + (if a.include_system { system } else { none }));
    assert(fb =~= (if b.cap { cap } else { none }) + (if b.include_existing { existing } else { none })
        + (if b.include_system { system } else { none }));
    assert("--cap"@.len() == 5);
    assert("--include-existing"@.len() == 18);
    assert("--include-system"@.len() == 16);
    if a.cap != b.cap || a.include_existing != b.include_existing || a.include_system != b.include_system {
        assert(fa.len() != fb.len() || fa[0].len() != fb[0].len() || fa[1].len() != fb[1].len()
            || fa[2].len() != fb[2].len());
    }
}

/// Joining one more word appends the separator and that word to the join of
/// the words before it; a single word is joined to itself, and no words to
/// nothing.
pub proof fn law_join_appends(words: Seq<Seq<char>>, sep: Seq<char>, word: Seq<char>)
    ensures
        joined(Seq::<Seq<char>>::empty(), sep) == Seq::<char>::empty(),
        joined(seq![word], sep) == word,
        words.len() >= 1 ==> joined(words.push(word), sep) == joined(words, sep) + sep + word,
{
    assert(words.push(word).drop_last() =~= words);
    assert(words.push(word).last() == word);
}

/// The join holds every word, in order: word `k` starts right after the
/// words before it, each followed by one separator, and the join is as long
/// as all words and the separators between them.
pub proof fn law_join_holds_every_word(words: Seq<Seq<char>>, sep: Seq<char>)
    ensures
        forall|k: int|
            #![trigger words[k]]
            0 <= k < words.len() ==> joined(words, sep).subrange(
                joined(words.take(k), sep).len() + (if k > 0 {
                    sep.len() as int
                } else {
                    0
                }),
                joined(words.take(k), sep).len() + (if k > 0 {
                    sep.len() as int
                } else {
                    0
                }) + words[k].len(),
            ) == words[k],
    decreases words.len(),
{
    if words.len() > 0 {
        let front = words.drop_last();
        law_join_holds_every_word(front, sep);
        let whole = joined(words, sep);
        assert forall|k: int| #![trigger words[k]] 0 <= k < words.len() implies joined(words, sep).subrange(
            joined(words.take(k), sep).len() + (if k > 0 {
                sep.len() as int
            } else {
                0
            }),
            joined(words.take(k), sep).len() + (if k > 0 {
                sep.len() as int
            } else {
                0
            }) + words[k].len(),
        ) == words[k] by {
            let start = joined(words.take(k), sep).len() + (if k > 0 {
                sep.len() as int
            } else {
                0
            });
            if k < words.len() - 1 {
                assert(words.take(k) =~= front.take(k));
                assert(words[k] == front[k]);
                let inner = joined(front, sep);
                assert(front.subrange(0, k + 1).len() == k + 1);
                lemma_join_prefix_len(front, sep, k);
                if words.len() == 1 {
                } else {
                    assert(whole == inner + sep + words.last());
                    assert(whole.subrange(start, start + words[k].len()) =~= inner.subrange(
                        start,
                        start + words[k].len(),
                    ));
                }
            } else {
                assert(words.take(k) =~= front);
                if k == 0 {
                    assert(whole == words[0]);
                    assert(joined(words.take(0), sep) =~= Seq::<char>::empty()) by {
                        assert(words.take(0) =~= Seq::<Seq<char>>::empty());
                    }
                    assert(whole.subrange(0, words[0].len() as int) =~= words[0]);
                } else {
                    assert(whole == joined(front, sep) + sep + words.last());
                    assert(whole.subrange(start, start + words[k].len()) =~= words[k]);
                }
            }
        }
    }
}

/// The join of the first `k + 1` words is no longer than the join of all of
/// them, once the start of word `k` is counted.
proof fn lemma_join_prefix_len(words: Seq<Seq<char>>, sep: Seq<char>, k: int)
    requires
        0 <= k < words.len(),
    ensures
        joined(words.take(k), sep).len() + (if k > 0 {
            sep.len() as int
        } else {
            0
        }) + words[k].len() <= joined(words, sep).len(),
    decreases words.len(),
{
    if k < words.len() - 1 {
        lemma_join_prefix_len(words.drop_last(), sep, k);
        assert(words.take(k) =~= words.drop_last().take(k));
        assert(words[k] == words.drop_last()[k]);
    } else {
        assert(words.take(k) =~= words.drop_last());
        if k == 0 {
            assert(words.take(0) =~= Seq::<Seq<char>>::empty());
        }
    }
}

/// The status report names the state of the guard process from `running`
/// alone, and the state of automatic start from `automatic_start` alone: it
/// starts with "Automatic start: enabled" exactly when automatic start is
/// registered, and ends with "process: running" exactly when the guard runs.
pub proof fn law_status_follows_its_inputs(automatic_start: bool, running: bool)
    ensures
        ({
            let t = status_text(automatic_start, running);
            &&& t.len() >= 24
            &&& (t.subrange(0, 24) == "Automatic start: enabled"@ <==> automatic_start)
            &&& (t.subrange(t.len() - 16, t.len() as int) == "process: running"@ <==> running)
        }),
{
    reveal_strlit("Automatic start: enabled");
    reveal_strlit("process: running");
    reveal_strlit("Automatic start: ");
    reveal_strlit("enabled");
    reveal_strlit("disabled");
    reveal_strlit("\nGuard process: ");
    reveal_strlit("running");
    reveal_strlit("not running");
    let t = status_text(automatic_start, running);
    if automatic_start {
        assert(t.subrange(0, 24) =~= "Automatic start: enabled"@);
    } else {
        assert(t.subrange(0, 24)[18] != "Automatic start: enabled"@[18]);
    }
    if running {
        assert(t.subrange(t.len() - 16, t.len() as int) =~= "process: running"@);
    } else {
        assert(t.subrange(t.len() - 16, t.len() as int)[4] != "process: running"@[4]);
    }
}

/// The text of a string literal of the launcher's script language, read
/// back: each doubled double quote stands for one.
pub open spec fn quotes_undoubled(text: Seq<char>) -> Seq<char>
    decreases text.len(),
{
    if text.len() == 0 {
        seq![]
    } else if text.len() >= 2 && text[0] == '"' && text[1] == '"' {
        seq!['"'] + quotes_undoubled(text.skip(2))
    } else {
        seq![text[0]] + quotes_undoubled(text.skip(1))
    }
}

/// Reading back a text whose quotes were doubled gives the text: the
/// launcher's `shell.Run` literal stands for exactly the command, for every
/// executable path and every argument list.
pub proof fn law_quotes_round_trip(text: Seq<char>)
    ensures
        quotes_undoubled(quotes_doubled(text)) == text,
    decreases text.len(),
{
    if text.len() > 0 {
        let c = text[0];
        let rest = text.drop_first();
        assert(text =~= seq![c] + rest);
        lemma_quotes_doubled_concat(seq![c], rest);
        law_quotes_round_trip(rest);
        assert(seq![c].drop_last() =~= Seq::<char>::empty());
        assert(seq![c].last() == c);
        assert(quotes_doubled(Seq::<char>::empty()) =~= Seq::<char>::empty());
        let doubled = quotes_doubled(text);
        if c == '"' {
            assert(quotes_doubled(seq![c]) =~= seq!['"', '"']);
            assert(doubled =~= seq!['"', '"'] + quotes_doubled(rest));
            assert(doubled.skip(2) =~= quotes_doubled(rest));
            assert(quotes_undoubled(doubled) =~= seq!['"'] + rest);
        } else {
            assert(quotes_doubled(seq![c]) =~= seq![c]);
            assert(doubled =~= seq![c] + quotes_doubled(rest));
            assert(doubled.skip(1) =~= quotes_doubled(rest));
            assert(quotes_undoubled(doubled) =~= seq![c] + rest);
        }
    }
}

/// Doubling quotes works piece by piece.
proof fn lemma_quotes_doubled_concat(a: Seq<char>, b: Seq<char>)
    ensures
        quotes_doubled(a + b) == quotes_doubled(a) + quotes_doubled(b),
    decreases b.len(),
{
    if b.len() == 0 {
        assert(a + b =~= a);
    } else {
        lemma_quotes_doubled_concat(a, b.drop_last());
        assert((a + b).drop_last() =~= a + b.drop_last());
        assert((a + b).last() == b.last());
    }
}

/// A text without double quotes is kept as it is.
proof fn lemma_quotes_doubled_plain(text: Seq<char>)
    requires
        !text.contains('"'),
    ensures
        quotes_doubled(text) == text,
    decreases text.len(),
{
    if text.len() > 0 {
        assert(!text.drop_last().contains('"')) by {
            if text.drop_last().contains('"') {
                let j = choose|j: int| 0 <= j < text.drop_last().len() && text.drop_last()[j] == '"';
                assert(text[j] == '"');
            }
        }
        lemma_quotes_doubled_plain(text.drop_last());
        assert(text.last() != '"') by {
            assert(text[text.len() - 1] == text.last());
        }
        assert(text.drop_last().push(text.last()) =~= text);
    }
}

/// Words without double quotes, joined by spaces, hold no double quote.
proof fn lemma_joined_plain(words: Seq<Seq<char>>)
    requires
        forall|k: int| #![auto] 0 <= k < words.len() ==> !words[k].contains('"'),
    ensures
        !joined(words, seq![' ']).contains('"'),
    decreases words.len(),
{
    if words.len() > 1 {
        lemma_joined_plain(words.drop_last());
        let front = joined(words.drop_last(), seq![' ']);
        let whole = front + seq![' '] + words.last();
        assert(!words[words.len() - 1].contains('"'));
        if whole.contains('"') {
            let j = choose|j: int| 0 <= j < whole.len() && whole[j] == '"';
            if j < front.len() {
                assert(front[j] == '"');
            } else if j > front.len() {
                assert(words.last()[j - front.len() - 1] == '"');
            }
        }
    } else if words.len() == 1 {
        assert(!words[0].contains('"'));
    }
}

} // verus!
