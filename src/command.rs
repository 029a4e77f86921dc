use vstd::prelude::*;

use crate::classify::{classify_spec, determine_opt_type, OptionType};
use crate::values::{parse_values, strings_view, values_spec};

verus! {

/// One classified token from before the separator.
#[derive(Debug, Clone)]
pub struct Option {
    /// The form of the token.
    pub opt_type: OptionType,
    /// The token itself; the flag name for a long option with `=`; `-` and
    /// one character for each entry of a bundled short option.
    pub opt_str: String,
    /// The values after `=` of a long option; empty for any other entry.
    pub opt_values: Vec<String>,
}

/// The mathematical content of an [`Option`].
pub ghost struct OptionModel {
    pub kind: OptionType,
    pub text: Seq<char>,
    pub values: Seq<Seq<char>>,
}

impl View for Option {
    type V = OptionModel;

    open spec fn view(&self) -> OptionModel {
        OptionModel { kind: self.opt_type, text: self.opt_str@, values: strings_view(self.opt_values@) }
    }
}

/// The contents of a sequence of entries.
pub open spec fn options_view(v: Seq<Option>) -> Seq<OptionModel> {
    v.map_values(|o: Option| o@)
}

impl Default for Option {
    fn default() -> (r: Option)
        ensures
            r@ == (OptionModel { kind: OptionType::Simple, text: Seq::empty(), values: Seq::empty() }),
    {
        let r = Option { opt_type: OptionType::Simple, opt_str: String::new(), opt_values: Vec::new() };
        assert(strings_view(r.opt_values@) =~= Seq::empty());
        r
    }
}

/// `k` is the position of the first `=` in `t`.
pub open spec fn is_first_eq(t: Seq<char>, k: int) -> bool {
    0 <= k < t.len() && t[k] == '=' && forall|j: int| 0 <= j < k ==> t[j] != '='
}

/// `t` holds an `=`.
pub open spec fn has_eq(t: Seq<char>) -> bool {
    exists|k: int| 0 <= k < t.len() && t[k] == '='
}

/// The entry of a long option: split at its first `=` where it has one.
pub open spec fn long_entry(t: Seq<char>) -> OptionModel {
    if has_eq(t) {
        let k = choose|k: int| is_first_eq(t, k);
        OptionModel {
            kind: OptionType::LongOpt,
            text: t.subrange(0, k),
            values: values_spec(t.subrange(k + 1, t.len() as int)),
        }
    } else {
        OptionModel { kind: OptionType::LongOpt, text: t, values: Seq::empty() }
    }
}

/// The entry `-c` for the character at position `i + 1` of a bundle.
pub open spec fn bundled_entry(t: Seq<char>, i: int) -> OptionModel {
    OptionModel { kind: OptionType::ShortOpt, text: seq!['-', t[i + 1]], values: Seq::empty() }
}

/// The entries that one token before the separator yields.
pub open spec fn entries_spec(t: Seq<char>) -> Seq<OptionModel> {
    match classify_spec(t) {
        OptionType::LongOpt => seq![long_entry(t)],
        OptionType::ShortOpt => if t.len() > 2 {
            Seq::new((t.len() - 1) as nat, |i: int| bundled_entry(t, i))
        } else {
            seq![OptionModel { kind: OptionType::ShortOpt, text: t, values: Seq::empty() }]
        },
        OptionType::Simple => seq![
            OptionModel { kind: OptionType::Simple, text: t, values: Seq::empty() },
        ],
    }
}

/// The separator token `--`.
pub open spec fn is_separator(t: Seq<char>) -> bool {
    t == seq!['-', '-']
}

/// The entries of the tokens `ts` up to the first separator.
pub open spec fn opts_spec(ts: Seq<Seq<char>>) -> Seq<OptionModel>
    decreases ts.len(),
{
    if ts.len() == 0 || is_separator(ts[0]) {
        Seq::empty()
    } else {
        entries_spec(ts[0]) + opts_spec(ts.drop_first())
    }
}

/// The tokens of `ts` after the first separator; empty where there is none.
pub open spec fn args_spec(ts: Seq<Seq<char>>) -> Seq<Seq<char>>
    decreases ts.len(),
{
    if ts.len() == 0 {
        Seq::empty()
    } else if is_separator(ts[0]) {
        ts.drop_first()
    } else {
        args_spec(ts.drop_first())
    }
}

/// Tells whether `t` is the separator `--`.
fn is_separator_token(t: &str) -> (r: bool)
    ensures
        r == is_separator(t@),
{
    let r = t.unicode_len() == 2 && t.get_char(0) == '-' && t.get_char(1) == '-';
    if r {
        assert(t@ =~= seq!['-', '-']);
    }
    r
}

/// Position of the first `=` in `arg`, or its length where it has none.
fn find_eq(arg: &str) -> (r: usize)
    ensures
        r <= arg@.len(),
        r < arg@.len() ==> is_first_eq(arg@, r as int),
        r == arg@.len() ==> !has_eq(arg@),
{
    let n: usize = arg.unicode_len();
    let mut i: usize = 0;
    while i < n && arg.get_char(i) != '='
        invariant
            n == arg@.len(),
            i <= n,
            forall|j: int| 0 <= j < i ==> arg@[j] != '=',
        decreases n - i,
    {
        i = i + 1;
    }
    i
}

pub(crate) proof fn lemma_first_eq_unique(t: Seq<char>, k: int)
    requires
        is_first_eq(t, k),
    ensures
        has_eq(t),
        (choose|k: int| is_first_eq(t, k)) == k,
{
    let c = choose|k: int| is_first_eq(t, k);
    assert(is_first_eq(t, c));
    if c < k {
        assert(t[c] != '=');
    } else if c > k {
        assert(t[k] != '=');
    }
}

/// The parsed command line.
#[derive(Debug)]
pub struct Command {
    /// The first raw token, or the empty string where there was none.
    pub cmd_name: String,
    /// The entries of the tokens before the first `--`, in order.
    pub opts: Vec<Option>,
    /// The tokens after the first `--`, verbatim.
    pub args: Vec<String>,
}

/// The mathematical content of a [`Command`].
pub ghost struct CommandModel {
    pub name: Seq<char>,
    pub opts: Seq<OptionModel>,
    pub args: Seq<Seq<char>>,
}

impl View for Command {
    type V = CommandModel;

    open spec fn view(&self) -> CommandModel {
        CommandModel {
            name: self.cmd_name@,
            opts: options_view(self.opts@),
            args: strings_view(self.args@),
        }
    }
}

/// The command that the raw tokens `ts` describe: the first token names the
/// program, the rest are scanned up to and after the first separator.
pub open spec fn command_spec(ts: Seq<Seq<char>>) -> CommandModel {
    if ts.len() == 0 {
        CommandModel { name: Seq::empty(), opts: Seq::empty(), args: Seq::empty() }
    } else {
        CommandModel {
            name: ts[0],
            opts: opts_spec(ts.drop_first()),
            args: args_spec(ts.drop_first()),
        }
    }
}

impl Default for Command {
    fn default() -> (r: Command)
        ensures
            r@ == (CommandModel { name: Seq::empty(), opts: Seq::empty(), args: Seq::empty() }),
    {
        Command::new(String::new())
    }
}

impl Command {
    /// A command named `cmd_name`, with no entries and no arguments.
    pub fn new(cmd_name: String) -> (r: Command)
        ensures
            r@ == (CommandModel { name: cmd_name@, opts: Seq::empty(), args: Seq::empty() }),
    {
        let r = Command { cmd_name, opts: Vec::new(), args: Vec::new() };
        assert(options_view(r.opts@) =~= Seq::empty());
        assert(strings_view(r.args@) =~= Seq::empty());
        r
    }

    /// Appends the entries that the token `arg` yields.
    fn add_entries(&mut self, arg: &String)
        ensures
            final(self)@ == (CommandModel {
                opts: old(self)@.opts + entries_spec(arg@),
                ..old(self)@
            }),
    {
        let t = arg.as_str();
        let kind = determine_opt_type(t);
        match kind {
            OptionType::LongOpt => {
                let k = find_eq(t);
                if k < t.unicode_len() {
                    let key = t.substring_char(0, k);
                    let opt_values = parse_values(t.substring_char(k + 1, t.unicode_len()));
                    proof {
                        lemma_first_eq_unique(t@, k as int);
                    }
                    self.add_opt(
                        Option { opt_type: OptionType::LongOpt, opt_str: String::from_str(key), opt_values },
                    );
                } else {
                    let r = Option { opt_type: OptionType::LongOpt, opt_str: arg.clone(), opt_values: Vec::new() };
                    assert(strings_view(r.opt_values@) =~= Seq::empty());
                    self.add_opt(r);
                }
                assert(entries_spec(arg@) =~= seq![long_entry(arg@)]);
                assert(self@.opts =~= old(self)@.opts + entries_spec(arg@));
            },
            OptionType::ShortOpt => {
                let n: usize = t.unicode_len();
                if n > 2 {
                    let ghost bundle = Seq::new((n - 1) as nat, |i: int| bundled_entry(arg@, i));
                    let mut i: usize = 1;
                    while i < n
                        invariant
                            n == arg@.len(),
                            t@ == arg@,
                            1 <= i <= n,
                            bundle == Seq::new((n - 1) as nat, |i: int| bundled_entry(arg@, i)),
                            self@ == (CommandModel {
                                opts: old(self)@.opts + bundle.subrange(0, i - 1),
                                ..old(self)@
                            }),
                        decreases n - i,
                    {
                        proof {
                            reveal_strlit("-");
                        }
                        let text = String::from_str("-").concat(t.substring_char(i, i + 1));
                        let r = Option { opt_type: OptionType::ShortOpt, opt_str: text, opt_values: Vec::new() };
                        assert(strings_view(r.opt_values@) =~= Seq::empty());
                        assert(r@.text =~= seq!['-', arg@[i as int]]);
                        self.add_opt(r);
                        assert(bundle.subrange(0, i as int) =~= bundle.subrange(0, i - 1).push(r@));
                        assert(self@.opts =~= old(self)@.opts + bundle.subrange(0, i as int));
                        i = i + 1;
                    }
                    assert(bundle.subrange(0, n - 1) =~= bundle);
                } else {
                    let r = Option { opt_type: OptionType::ShortOpt, opt_str: arg.clone(), opt_values: Vec::new() };
                    assert(strings_view(r.opt_values@) =~= Seq::empty());
                    self.add_opt(r);
                    assert(self@.opts =~= old(self)@.opts + entries_spec(arg@));
                }
            },
            OptionType::Simple => {
                let r = Option { opt_type: OptionType::Simple, opt_str: arg.clone(), opt_values: Vec::new() };
                assert(strings_view(r.opt_values@) =~= Seq::empty());
                self.add_opt(r);
                assert(self@.opts =~= old(self)@.opts + entries_spec(arg@));
            },
        }
    }

    /// Parses the raw tokens `tokens`: the first names the program; those
    /// before the first `--` are classified into entries; those after it are
    /// kept verbatim.
    pub fn from_args(tokens: &Vec<String>) -> (r: Command)
        ensures
            r@ == command_spec(strings_view(tokens@)),
    {
        let ghost ts = strings_view(tokens@);
        let n: usize = tokens.len();
        if n == 0 {
            return Command::new(String::new());
        }
        let mut command = Command::new(tokens[0].clone());
        let ghost rest = ts.drop_first();
        let mut i: usize = 1;
        proof {
            assert(ts.subrange(1, n as int) =~= rest);
            assert(command@.opts + opts_spec(rest) =~= opts_spec(rest));
            assert(command@.args + args_spec(rest) =~= args_spec(rest));
        }
        while i < n
            invariant
                n == tokens@.len(),
                ts == strings_view(tokens@),
                rest == ts.drop_first(),
                1 <= i <= n,
                command@.name == ts[0],
                opts_spec(rest) == command@.opts + opts_spec(ts.subrange(i as int, n as int)),
                args_spec(rest) == command@.args + args_spec(ts.subrange(i as int, n as int)),
            decreases n - i,
        {
            let ghost tail = ts.subrange(i as int, n as int);
            assert(tail[0] == tokens[i as int]@);
            assert(tail.drop_first() =~= ts.subrange(i + 1, n as int));
            if is_separator_token(tokens[i].as_str()) {
                let ghost before = command@.args;
                let ghost opts_before = command@.opts;
                let mut j: usize = i + 1;
                while j < n
                    invariant
                        n == tokens@.len(),
                        ts == strings_view(tokens@),
                        i < j <= n,
                        command@.name == ts[0],
                        command@.opts == opts_before,
                        command@.args == before + ts.subrange(i + 1, j as int),
                    decreases n - j,
                {
                    let ghost old_args = command.args@;
                    command.args.push(tokens[j].clone());
                    assert(strings_view(command.args@) =~= strings_view(old_args).push(ts[j as int]));
                    assert(ts.subrange(i + 1, j + 1) =~= ts.subrange(i + 1, j as int).push(ts[j as int]));
                    assert(strings_view(command.args@) =~= before + ts.subrange(i + 1, j + 1));
                    j = j + 1;
                }
                assert(ts.subrange(n as int, n as int) =~= Seq::<Seq<char>>::empty());
                assert(command@.opts =~= command@.opts + opts_spec(ts.subrange(n as int, n as int)));
                assert(command@.args =~= command@.args + args_spec(ts.subrange(n as int, n as int)));
                i = n;
            } else {
                assert(!is_separator(tail[0]));
                command.add_entries(&tokens[i]);
                i = i + 1;
            }
        }
        assert(ts.subrange(n as int, n as int) =~= Seq::<Seq<char>>::empty());
        assert(command@.opts =~= opts_spec(rest));
        assert(command@.args =~= args_spec(rest));
        command
    }

    /// Appends `opt` to the entries.
    pub fn add_opt(&mut self, opt: Option)
        ensures
            final(self)@ == (CommandModel { opts: old(self)@.opts.push(opt@), ..old(self)@ }),
    {
        self.opts.push(opt);
        assert(options_view(self.opts@) =~= options_view(old(self).opts@).push(opt@));
    }
}

/// The tokens `ts` joined by single spaces.
pub open spec fn joined_spec(ts: Seq<Seq<char>>) -> Seq<char>
    decreases ts.len(),
{
    if ts.len() == 0 {
        Seq::empty()
    } else if ts.len() == 1 {
        ts[0]
    } else {
        joined_spec(ts.drop_last()) + seq![' '] + ts.last()
    }
}

/// The raw tokens joined by single spaces, as the command line was typed.
pub fn join_args(tokens: &Vec<String>) -> (r: String)
    ensures
        r@ == joined_spec(strings_view(tokens@)),
{
    let ghost ts = strings_view(tokens@);
    let mut r = String::new();
    let mut i: usize = 0;
    while i < tokens.len()
        invariant
            ts == strings_view(tokens@),
            i <= tokens@.len(),
            r@ == joined_spec(ts.subrange(0, i as int)),
        decreases tokens@.len() - i,
    {
        let ghost prefix = ts.subrange(0, i + 1);
        assert(prefix.drop_last() =~= ts.subrange(0, i as int));
        if i > 0 {
            proof {
                reveal_strlit(" ");
            }
            r.append(" ");
        }
        r.append(tokens[i].as_str());
        assert(r@ =~= joined_spec(prefix));
        i = i + 1;
    }
    assert(ts.subrange(0, tokens@.len() as int) =~= ts);
    r
}

} // verus!
