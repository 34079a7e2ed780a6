//! The configuration: commands, the table that binds key combinations to them, and the
//! grammar that turns configuration text into that table.

use crate::key::{token_keys, Key};
use crate::keyset::KeySet;
use crate::text::{
    chars_of, lemma_split_pieces, split, split_text, string_of, strings, texts, trim, trimmed,
    Sep, Separator,
};
use vstd::prelude::*;

verus! {

/// What a command is: the program to start and the arguments to hand it, in order.
pub struct CommandSpec {
    pub program: Seq<char>,
    pub args: Seq<Seq<char>>,
}

/// The command that a command line stands for. The line is cut at each whitespace
/// character: the first piece is the program, the others are its arguments, taken
/// literally. Two whitespace characters in a row leave an empty argument.
pub open spec fn command_of(line: Seq<char>) -> CommandSpec {
    let words = split(line, Sep::Space);
    CommandSpec { program: words[0], args: words.subrange(1, words.len() as int) }
}

/// A command to launch.
#[derive(Debug)]
pub struct Exec {
    cmd: String,
    args: Vec<String>,
}

impl View for Exec {
    type V = CommandSpec;

    closed spec fn view(&self) -> CommandSpec {
        CommandSpec { program: self.cmd@, args: strings(self.args@) }
    }
}

impl Exec {
    /// The command that the line `cmd` stands for. Every line stands for one.
    pub fn new(cmd: &str) -> (r: Option<Exec>)
        ensures
            r matches Some(command) && command@ == command_of(cmd@),
    {
        let chars = chars_of(cmd);
        let words = split_text(chars.as_slice(), &Separator::Space);
        proof {
            lemma_split_pieces(cmd@, Sep::Space);
        }
        let program = string_of(words[0].as_slice());
        let mut args: Vec<String> = Vec::new();
        let mut i: usize = 1;
        while i < words.len()
            invariant
                1 <= i <= words.len(),
                strings(args@) == texts(words@).subrange(1, i as int),
            decreases words.len() - i,
        {
            let arg = string_of(words[i].as_slice());
            let ghost before = args@;
            args.push(arg);
            assert(strings(args@) =~= strings(before).push(words@[i as int]@));
            assert(strings(args@) =~= texts(words@).subrange(1, i + 1));
            i += 1;
        }
        Some(Exec { cmd: program, args })
    }

    /// The program to start.
    pub fn program(&self) -> (r: &str)
        ensures
            r@ == self@.program,
    {
        self.cmd.as_str()
    }

    /// The arguments to hand the program, in order.
    pub fn args(&self) -> (r: &Vec<String>)
        ensures
            strings(r@) == self@.args,
    {
        &self.args
    }

    /// The same command as a value of its own.
    pub fn copy(&self) -> (r: Exec)
        ensures
            r@ == self@,
    {
        let mut args: Vec<String> = Vec::new();
        let mut i: usize = 0;
        while i < self.args.len()
            invariant
                i <= self.args.len(),
                strings(args@) == strings(self.args@).take(i as int),
            decreases self.args.len() - i,
        {
            let ghost before = args@;
            args.push(self.args[i].clone());
            assert(strings(args@) =~= strings(before).push(self.args@[i as int]@));
            assert(strings(args@) =~= strings(self.args@).take(i + 1));
            i += 1;
        }
        assert(strings(args@) =~= strings(self.args@));
        Exec { cmd: self.cmd.clone(), args }
    }
}

/// One line of the table: a key combination and the command bound to it.
#[derive(Debug)]
struct Keybinding {
    keys: KeySet,
    command: Exec,
}

/// The table that a sequence of bindings stands for: each binding in turn is put into the
/// table, so that of two bindings of the same combination the later one holds.
spec fn table_of(entries: Seq<Keybinding>) -> Map<Set<Key>, CommandSpec>
    decreases entries.len(),
{
    if entries.len() == 0 {
        Map::empty()
    } else {
        table_of(entries.drop_last()).insert(entries.last().keys@, entries.last().command@)
    }
}

/// The table of key combinations and the commands bound to them.
#[derive(Debug)]
pub struct Keybindings {
    entries: Vec<Keybinding>,
}

impl View for Keybindings {
    type V = Map<Set<Key>, CommandSpec>;

    closed spec fn view(&self) -> Map<Set<Key>, CommandSpec> {
        table_of(self.entries@)
    }
}

proof fn lemma_later_entries_unrelated(entries: Seq<Keybinding>, from: int, keys: Set<Key>)
    requires
        0 <= from <= entries.len(),
        forall|j: int| from <= j < entries.len() ==> entries[j].keys@ != keys,
    ensures
        table_of(entries).contains_key(keys) == table_of(entries.take(from)).contains_key(keys),
        table_of(entries).contains_key(keys) ==> table_of(entries)[keys] == table_of(
            entries.take(from),
        )[keys],
    decreases entries.len() - from,
{
    if from == entries.len() {
        assert(entries.take(from) =~= entries);
    } else {
        let shorter = entries.drop_last();
        lemma_later_entries_unrelated(shorter, from, keys);
        assert(shorter.take(from) =~= entries.take(from));
    }
}

impl Keybindings {
    /// The table without any binding.
    pub fn new() -> (table: Keybindings)
        ensures
            table@ == Map::<Set<Key>, CommandSpec>::empty(),
    {
        Keybindings { entries: Vec::new() }
    }

    /// Binds `command` to the combination `keys`. A command bound to it before is replaced.
    pub fn insert(&mut self, keys: KeySet, command: Exec)
        ensures
            final(self)@ == old(self)@.insert(keys@, command@),
    {
        self.entries.push(Keybinding { keys, command });
        assert(self.entries@.drop_last() =~= old(self).entries@);
    }

    /// The command bound to exactly the keys `held`, if one is.
    pub fn get(&self, held: &KeySet) -> (r: Option<&Exec>)
        ensures
            match r {
                Some(command) => self@.contains_key(held@) && command@ == self@[held@],
                None => !self@.contains_key(held@),
            },
    {
        let mut i: usize = self.entries.len();
        while i > 0
            invariant
                i <= self.entries.len(),
                forall|j: int| i <= j < self.entries.len() ==> self.entries@[j].keys@ != held@,
            decreases i,
        {
            i -= 1;
            if self.entries[i].keys.same(held) {
                proof {
                    lemma_later_entries_unrelated(self.entries@, i + 1, held@);
                    assert(self.entries@.take(i + 1).drop_last() =~= self.entries@.take(i as int));
                }
                return Some(&self.entries[i].command);
            }
        }
        proof {
            lemma_later_entries_unrelated(self.entries@, 0, held@);
        }
        None
    }

    /// Whether no combination is bound.
    pub fn is_empty(&self) -> (r: bool)
        ensures
            r == (self@ == Map::<Set<Key>, CommandSpec>::empty()),
    {
        proof {
            if self.entries@.len() > 0 {
                assert(self@.contains_key(self.entries@.last().keys@));
            }
        }
        self.entries.len() == 0
    }
}

/// Whether `c` is one of the two characters that mark an indented line.
pub open spec fn is_indent(c: char) -> bool {
    c == ' ' || c == '\t'
}

/// Whether a line begins a key combination: it is not empty and not indented.
pub open spec fn keybinding_line(line: Seq<char>) -> bool {
    line.len() > 0 && !is_indent(line[0])
}

/// Whether a line holds a command: it is indented.
pub open spec fn command_line(line: Seq<char>) -> bool {
    line.len() > 0 && is_indent(line[0])
}

/// A chord: one or more modifiers, then one action key.
pub open spec fn is_chord(keys: Seq<Key>) -> bool {
    &&& keys.len() >= 2
    &&& forall|i: int| 0 <= i < keys.len() - 1 ==> (#[trigger] keys[i]).modifier()
    &&& keys.last().action()
}

/// A media-control key on its own.
pub open spec fn is_media_alone(keys: Seq<Key>) -> bool {
    keys.len() == 1 && keys[0].media_control()
}

/// Whether keys, in the order in which they were written, have the shape of a key
/// combination: a chord, or one media-control key alone.
pub open spec fn valid_keybinding(keys: Seq<Key>) -> bool {
    is_chord(keys) || is_media_alone(keys)
}

/// The tokens of a key combination line: the pieces between `+` signs, each trimmed.
pub open spec fn tokens_of(line: Seq<char>) -> Seq<Seq<char>> {
    let pieces = split(line, Sep::Text(seq!['+']));
    Seq::new(pieces.len(), |i: int| trim(pieces[i]))
}

/// The keys that tokens stand for, in the order of the tokens.
pub open spec fn resolve(tokens: Seq<Seq<char>>) -> Seq<Key>
    decreases tokens.len(),
{
    if tokens.len() == 0 {
        seq![]
    } else {
        resolve(tokens.drop_last()) + token_keys(tokens.last())
    }
}

/// The combination that keys written in this order make: the set of them, provided that
/// none is written twice and that they have the shape of a key combination.
pub open spec fn combination_of(keys: Seq<Key>) -> Option<Set<Key>> {
    if keys.no_duplicates() && valid_keybinding(keys) {
        Some(keys.to_set())
    } else {
        None
    }
}

/// The combination that a line of the configuration stands for, if it stands for one.
pub open spec fn line_combination(line: Seq<char>) -> Option<Set<Key>> {
    combination_of(resolve(tokens_of(line)))
}

/// Why keys make no combination.
#[derive(Clone, Copy, Debug, PartialEq, Eq, Structural)]
pub enum Refusal {
    /// A key is written twice.
    RepeatedKey,
    /// A token names no key.
    UnknownKey,
    /// The keys are neither modifiers followed by one action key nor one media-control key
    /// alone.
    Shape,
}

/// The combination that keys written in this order make, or the first reason why they make
/// none: a repeated key counts before an unknown one, and that before the shape.
pub open spec fn checked(keys: Seq<Key>) -> Result<Set<Key>, Refusal> {
    if !keys.no_duplicates() {
        Err(Refusal::RepeatedKey)
    } else if keys.contains(Key::UK) {
        Err(Refusal::UnknownKey)
    } else if !valid_keybinding(keys) {
        Err(Refusal::Shape)
    } else {
        Ok(keys.to_set())
    }
}

/// The combination that a line of the configuration stands for, or why it stands for none.
pub open spec fn line_checked(line: Seq<char>) -> Result<Set<Key>, Refusal> {
    checked(resolve(tokens_of(line)))
}

/// Keys are refused exactly when they make no combination, and accepted as the
/// combination that they make.
pub proof fn lemma_checked_agrees(keys: Seq<Key>)
    ensures
        combination_of(keys) == match checked(keys) {
            Ok(set) => Some(set),
            Err(_) => None,
        },
{
    if valid_keybinding(keys) && keys.contains(Key::UK) {
        let i = choose|i: int| 0 <= i < keys.len() && keys[i] == Key::UK;
        if i < keys.len() - 1 {
            assert(keys[i].modifier());
        }
    }
}

/// The lines that stand for no combination although they begin one, each with its place
/// among `lines`, counted from 0, and with the reason.
pub open spec fn refusals(lines: Seq<Seq<char>>) -> Seq<(int, Refusal)>
    decreases lines.len(),
{
    if lines.len() == 0 {
        seq![]
    } else {
        let before = refusals(lines.drop_last());
        match line_checked(lines.last()) {
            Err(why) if keybinding_line(lines.last()) => before.push((lines.len() - 1, why)),
            _ => before,
        }
    }
}

/// The lines of a configuration text that are refused.
pub open spec fn refusals_of(text: Seq<char>) -> Seq<(int, Refusal)> {
    refusals(split(text, Sep::Text(seq!['\n'])))
}

/// The places and reasons that a vector of refusals holds.
pub open spec fn located(v: Seq<(usize, Refusal)>) -> Seq<(int, Refusal)> {
    Seq::new(v.len(), |i: int| (v[i].0 as int, v[i].1))
}

/// The set of keys, or the refusal, that a result holds.
pub open spec fn view_of_result(r: Result<KeySet, Refusal>) -> Result<Set<Key>, Refusal> {
    match r {
        Ok(keys) => Ok(keys@),
        Err(why) => Err(why),
    }
}

/// Where the reading of a configuration stands after some of its lines: the table so far,
/// and the combination that still waits for its command.
pub struct Progress {
    pub table: Map<Set<Key>, CommandSpec>,
    pub pending: Option<Set<Key>>,
}

/// Reading one more line. A line that begins a combination makes that combination wait
/// for a command; if the line stands for none, nothing waits. An indented line gives the
/// waiting combination its command, and is passed over when nothing waits. An empty line
/// changes nothing.
pub open spec fn read_line(before: Progress, line: Seq<char>) -> Progress {
    if keybinding_line(line) {
        Progress { table: before.table, pending: line_combination(line) }
    } else if command_line(line) {
        match before.pending {
            Some(keys) => Progress {
                table: before.table.insert(keys, command_of(trim(line))),
                pending: None,
            },
            None => before,
        }
    } else {
        before
    }
}

/// Reading lines in order, from an empty table with nothing waiting.
pub open spec fn read_lines(lines: Seq<Seq<char>>) -> Progress
    decreases lines.len(),
{
    if lines.len() == 0 {
        Progress { table: Map::empty(), pending: None }
    } else {
        read_line(read_lines(lines.drop_last()), lines.last())
    }
}

/// The table that a configuration text stands for.
pub open spec fn bindings_of(text: Seq<char>) -> Map<Set<Key>, CommandSpec> {
    read_lines(split(text, Sep::Text(seq!['\n']))).table
}

/// The set of keys that an optional key set holds.
pub open spec fn view_of(keys: Option<KeySet>) -> Option<Set<Key>> {
    match keys {
        Some(k) => Some(k@),
        None => None,
    }
}

/// A configuration: the text that binds key combinations to commands.
#[derive(Clone, Debug)]
pub struct Cfg {
    text: String,
}

impl View for Cfg {
    type V = Seq<char>;

    closed spec fn view(&self) -> Seq<char> {
        self.text@
    }
}

impl Cfg {
    /// The configuration with this text.
    pub fn new(text: String) -> (cfg: Cfg)
        ensures
            cfg@ == text@,
    {
        Cfg { text }
    }

    /// The table that the configuration stands for. No text is refused: a line that stands
    /// for no combination is passed over together with its command.
    pub fn parse(&self) -> (table: Keybindings)
        ensures
            table@ == bindings_of(self@),
    {
        self.read().0
    }

    /// The lines of the configuration that begin a combination and stand for none, each
    /// with its number, counted from 0, and the reason.
    pub fn refused(&self) -> (lines: Vec<(usize, Refusal)>)
        ensures
            located(lines@) == refusals_of(self@),
    {
        self.read().1
    }

    fn read(&self) -> (r: (Keybindings, Vec<(usize, Refusal)>))
        ensures
            r.0@ == bindings_of(self@),
            located(r.1@) == refusals_of(self@),
    {
        let chars = chars_of(self.text.as_str());
        let lines = split_text(chars.as_slice(), &Separator::of_char('\n'));
        let mut table = Keybindings::new();
        let mut refused: Vec<(usize, Refusal)> = Vec::new();
        let mut pending: Option<KeySet> = None;
        let mut i: usize = 0;
        while i < lines.len()
            invariant
                i <= lines.len(),
                table@ == read_lines(texts(lines@).take(i as int)).table,
                view_of(pending) == read_lines(texts(lines@).take(i as int)).pending,
                located(refused@) == refusals(texts(lines@).take(i as int)),
            decreases lines.len() - i,
        {
            assert(texts(lines@).take(i + 1).drop_last() =~= texts(lines@).take(i as int));
            let line = lines[i].as_slice();
            if line.len() > 0 {
                if line[0] == ' ' || line[0] == '\t' {
                    let waiting = pending;
                    pending = None;
                    match waiting {
                        Some(keys) => {
                            let text = string_of(trimmed(line).as_slice());
                            match Exec::new(text.as_str()) {
                                Some(command) => {
                                    table.insert(keys, command);
                                },
                                None => {},
                            }
                        },
                        None => {},
                    }
                } else {
                    proof {
                        lemma_checked_agrees(resolve(tokens_of(line@)));
                    }
                    match Cfg::keybinding_of(line) {
                        Ok(keys) => {
                            pending = Some(keys);
                        },
                        Err(why) => {
                            pending = None;
                            let ghost before = refused@;
                            refused.push((i, why));
                            assert(located(refused@) =~= located(before).push((i as int, why)));
                        },
                    }
                }
            }
            i += 1;
        }
        assert(texts(lines@).take(i as int) =~= texts(lines@));
        (table, refused)
    }

    /// Whether a line begins a key combination.
    pub fn is_keybinding(line: &str) -> (r: bool)
        ensures
            r == keybinding_line(line@),
    {
        let chars = chars_of(line);
        chars.len() > 0 && !(chars[0] == ' ' || chars[0] == '\t')
    }

    /// Whether a line holds a command.
    pub fn is_cmd(line: &str) -> (r: bool)
        ensures
            r == command_line(line@),
    {
        let chars = chars_of(line);
        chars.len() > 0 && (chars[0] == ' ' || chars[0] == '\t')
    }

    /// The combination that a line stands for, or `None` where it stands for none: where a
    /// key is written twice, or the keys do not have the shape of a key combination.
    pub fn parse_keybinding(line: &str) -> (r: Option<KeySet>)
        ensures
            view_of(r) == line_combination(line@),
    {
        proof {
            lemma_checked_agrees(resolve(tokens_of(line@)));
        }
        match Cfg::check_keybinding(line) {
            Ok(keys) => Some(keys),
            Err(_) => None,
        }
    }

    /// The combination that a line stands for, or the reason why it stands for none.
    pub fn check_keybinding(line: &str) -> (r: Result<KeySet, Refusal>)
        ensures
            view_of_result(r) == line_checked(line@),
    {
        let chars = chars_of(line);
        Cfg::keybinding_of(chars.as_slice())
    }

    fn keybinding_of(line: &[char]) -> (r: Result<KeySet, Refusal>)
        ensures
            view_of_result(r) == line_checked(line@),
    {
        let pieces = split_text(line, &Separator::of_char('+'));
        let ghost tokens = tokens_of(line@);
        let mut keys: Vec<Key> = Vec::new();
        let mut i: usize = 0;
        while i < pieces.len()
            invariant
                i <= pieces.len(),
                texts(pieces@) == split(line@, Sep::Text(seq!['+'])),
                tokens == tokens_of(line@),
                keys@ == resolve(tokens.take(i as int)),
            decreases pieces.len() - i,
        {
            let token = string_of(trimmed(pieces[i].as_slice()).as_slice());
            let mut found = Key::from_str(token.as_str());
            assert(tokens.take(i + 1).drop_last() =~= tokens.take(i as int));
            assert(token@ == tokens[i as int]);
            keys.append(&mut found);
            i += 1;
        }
        assert(tokens.take(i as int) =~= tokens);
        Cfg::combine(keys.as_slice())
    }

    /// The combination that keys written in this order make, or the reason why they make
    /// none.
    pub fn combine(keys: &[Key]) -> (r: Result<KeySet, Refusal>)
        ensures
            view_of_result(r) == checked(keys@),
    {
        let mut set = KeySet::new();
        let mut i: usize = 0;
        while i < keys.len()
            invariant
                i <= keys.len(),
                keys@.take(i as int).no_duplicates(),
                set@ == keys@.take(i as int).to_set(),
            decreases keys.len() - i,
        {
            let ghost seen = keys@.take(i as int);
            let added = set.insert(keys[i]);
            if !added {
                proof {
                    let j = choose|j: int| 0 <= j < seen.len() && seen[j] == keys@[i as int];
                    assert(keys@[j] == keys@[i as int]);
                }
                return Err(Refusal::RepeatedKey);
            }
            proof {
                let now = keys@.take(i + 1);
                assert(now =~= seen.push(keys@[i as int]));
                assert(!seen.contains(keys@[i as int]));
                assert(now.no_duplicates());
                assert(now.to_set() =~= seen.to_set().insert(keys@[i as int])) by {
                    assert forall|k: Key| now.to_set().contains(k) implies seen.to_set().insert(
                        keys@[i as int],
                    ).contains(k) by {
                        let j = choose|j: int| 0 <= j < now.len() && now[j] == k;
                        if j < seen.len() {
                            assert(seen[j] == k);
                        }
                    }
                    assert forall|k: Key|
                        seen.to_set().insert(keys@[i as int]).contains(k) implies now.to_set().contains(
                        k,
                    ) by {
                        if k == keys@[i as int] {
                            assert(now[i as int] == k);
                        } else {
                            let j = choose|j: int| 0 <= j < seen.len() && seen[j] == k;
                            assert(now[j] == k);
                        }
                    }
                }
            }
            i += 1;
        }
        assert(keys@.take(i as int) =~= keys@);
        if set.contains(Key::UK) {
            Err(Refusal::UnknownKey)
        } else if Cfg::is_valid_keybinding(keys) {
            Ok(set)
        } else {
            Err(Refusal::Shape)
        }
    }

    /// Whether keys, in the order in which they were written, have the shape of a key
    /// combination.
    pub fn is_valid_keybinding(keys: &[Key]) -> (r: bool)
        ensures
            r == valid_keybinding(keys@),
    {
        if keys.len() == 0 {
            return false;
        }
        if keys.len() == 1 {
            return keys[0].is_media_control();
        }
        let last = keys.len() - 1;
        let mut i: usize = 0;
        while i < last
            invariant
                i <= last,
                last == keys.len() - 1,
                forall|j: int| 0 <= j < i ==> (#[trigger] keys@[j]).modifier(),
            decreases last - i,
        {
            if !keys[i].is_modifier() {
                return false;
            }
            i += 1;
        }
        keys[last].is_action()
    }
}

} // verus!
