//! Flags: the fixed vocabulary, sets of flags, and the decoding of flag tokens.

use vstd::prelude::*;

use crate::error::ParseError;
use crate::text::{chars_of, same_chars};

verus! {

/// An option that changes what is reported.
#[derive(Debug, Clone, Copy, PartialEq, Eq, Hash, Structural)]
pub enum Flag {
    /// Report the sum of all rolls.
    Total,
    /// Report the sum of each group of dice.
    Subtotals,
    /// Print the usage text instead of rolling.
    Help,
}

/// A set of flags, one bit per flag.
#[derive(Debug, Clone, Copy, PartialEq, Eq, Structural)]
pub struct FlagSet {
    /// Whether `Flag::Total` is a member.
    pub total: bool,
    /// Whether `Flag::Subtotals` is a member.
    pub subtotals: bool,
    /// Whether `Flag::Help` is a member.
    pub help: bool,
}

impl View for FlagSet {
    type V = Set<Flag>;

    open spec fn view(&self) -> Set<Flag> {
        Set::new(|f: Flag| self.has(f))
    }
}

impl FlagSet {
    /// Whether `flag` is a member.
    pub open spec fn has(&self, flag: Flag) -> bool {
        match flag {
            Flag::Total => self.total,
            Flag::Subtotals => self.subtotals,
            Flag::Help => self.help,
        }
    }

    /// The empty set.
    pub fn new() -> (s: FlagSet)
        ensures
            s@ == Set::<Flag>::empty(),
    {
        FlagSet { total: false, subtotals: false, help: false }
    }

    /// Adds `flag`; says whether it was new to the set.
    pub fn insert(&mut self, flag: Flag) -> (added: bool)
        ensures
            final(self)@ == old(self)@.insert(flag),
            added == !old(self)@.contains(flag),
    {
        let was = self.contains(&flag);
        match flag {
            Flag::Total => {
                self.total = true;
            },
            Flag::Subtotals => {
                self.subtotals = true;
            },
            Flag::Help => {
                self.help = true;
            },
        }
        !was
    }

    /// Whether `flag` is a member.
    pub fn contains(&self, flag: &Flag) -> (b: bool)
        ensures
            b == self@.contains(*flag),
    {
        match flag {
            Flag::Total => self.total,
            Flag::Subtotals => self.subtotals,
            Flag::Help => self.help,
        }
    }

    /// Whether the set has no member.
    pub fn is_empty(&self) -> (b: bool)
        ensures
            b == (self@ == Set::<Flag>::empty()),
    {
        let b = !self.total && !self.subtotals && !self.help;
        proof {
            if !b {
                let f = if self.total {
                    Flag::Total
                } else if self.subtotals {
                    Flag::Subtotals
                } else {
                    Flag::Help
                };
                assert(self@.contains(f));
            } else {
                assert(self@ =~= Set::<Flag>::empty());
            }
        }
        b
    }

    /// The members of either set.
    pub fn union(self, other: FlagSet) -> (s: FlagSet)
        ensures
            s@ == self@.union(other@),
    {
        FlagSet {
            total: self.total || other.total,
            subtotals: self.subtotals || other.subtotals,
            help: self.help || other.help,
        }
    }
}

/// Two flag sets with the same members are the same value.
pub proof fn lemma_flag_set_by_members(a: FlagSet, b: FlagSet)
    requires
        a@ == b@,
    ensures
        a == b,
{
    assert(a.total == b.total) by {
        assert(a@.contains(Flag::Total) == a.has(Flag::Total));
        assert(b@.contains(Flag::Total) == b.has(Flag::Total));
    }
    assert(a.subtotals == b.subtotals) by {
        assert(a@.contains(Flag::Subtotals) == a.has(Flag::Subtotals));
        assert(b@.contains(Flag::Subtotals) == b.has(Flag::Subtotals));
    }
    assert(a.help == b.help) by {
        assert(a@.contains(Flag::Help) == a.has(Flag::Help));
        assert(b@.contains(Flag::Help) == b.has(Flag::Help));
    }
}

/// Whether the token is taken for a flag token: it begins with `-`.
pub open spec fn is_flag_token(t: Seq<char>) -> bool {
    t.len() >= 1 && t[0] == '-'
}

/// Whether the token is a long flag: it begins with `--`.
pub open spec fn is_long_token(t: Seq<char>) -> bool {
    t.len() >= 2 && t[0] == '-' && t[1] == '-'
}

/// The flag that a long token spells out, if any.
pub open spec fn long_flag(t: Seq<char>) -> Option<Flag> {
    if t == "--subtotals"@ {
        Some(Flag::Subtotals)
    } else if t == "--total"@ {
        Some(Flag::Total)
    } else if t == "--help"@ {
        Some(Flag::Help)
    } else {
        None
    }
}

/// The flag that a letter of a short token stands for, if any.
pub open spec fn short_flag(c: char) -> Option<Flag> {
    if c == 's' {
        Some(Flag::Subtotals)
    } else if c == 't' {
        Some(Flag::Total)
    } else if c == 'h' {
        Some(Flag::Help)
    } else {
        None
    }
}

/// Whether everything that the token asks for exists: a long token spells
/// out a flag; in any other token each character after the first is the
/// letter of a flag.
pub open spec fn recognized(t: Seq<char>) -> bool {
    if is_long_token(t) {
        long_flag(t) is Some
    } else {
        forall|i: int| 1 <= i < t.len() ==> short_flag(#[trigger] t[i]) is Some
    }
}

/// Whether the token asks for the flag `f`.
pub open spec fn asks_for(t: Seq<char>, f: Flag) -> bool {
    if is_long_token(t) {
        long_flag(t) == Some(f)
    } else {
        exists|i: int| 1 <= i < t.len() && short_flag(#[trigger] t[i]) == Some(f)
    }
}

/// The flags that any of the tokens asks for.
pub open spec fn flags_asked(tokens: Seq<Seq<char>>) -> Set<Flag> {
    Set::new(|f: Flag| exists|i: int| 0 <= i < tokens.len() && asks_for(#[trigger] tokens[i], f))
}

/// What decoding a list of flag tokens comes to: the set of all flags asked
/// for, in whatever order and however often; or `ParseError::Flag` as soon
/// as one token is not recognized.
pub open spec fn flags_outcome(tokens: Seq<Seq<char>>) -> Result<Set<Flag>, ParseError> {
    if forall|i: int| 0 <= i < tokens.len() ==> recognized(#[trigger] tokens[i]) {
        Ok(flags_asked(tokens))
    } else {
        Err(ParseError::Flag)
    }
}

/// A short token that runs the letters of two short tokens together asks
/// for what the two ask for, and is recognized where both are. Here `x` and
/// `y` are the letters behind the `-`; neither begins with another `-`.
pub proof fn lemma_short_flags_compose(x: Seq<char>, y: Seq<char>)
    requires
        x.len() == 0 || x[0] != '-',
        y.len() == 0 || y[0] != '-',
    ensures
        flags_outcome(seq![seq!['-'] + x + y]) == flags_outcome(seq![seq!['-'] + x, seq!['-'] + y]),
{
    let joined = seq!['-'] + x + y;
    let first = seq!['-'] + x;
    let second = seq!['-'] + y;
    let one = seq![joined];
    let two = seq![first, second];
    assert(!is_long_token(joined) && !is_long_token(first) && !is_long_token(second));
    assert(recognized(joined) <==> recognized(first) && recognized(second)) by {
        if recognized(joined) {
            assert forall|i: int| 1 <= i < first.len() implies short_flag(
                #[trigger] first[i],
            ) is Some by {
                assert(first[i] == joined[i]);
            }
            assert forall|i: int| 1 <= i < second.len() implies short_flag(
                #[trigger] second[i],
            ) is Some by {
                assert(second[i] == joined[i + x.len()]);
            }
        }
        if recognized(first) && recognized(second) {
            assert forall|i: int| 1 <= i < joined.len() implies short_flag(
                #[trigger] joined[i],
            ) is Some by {
                if i <= x.len() {
                    assert(joined[i] == first[i]);
                } else {
                    assert(joined[i] == second[i - x.len()]);
                }
            }
        }
    }
    assert forall|f: Flag| asks_for(joined, f) <==> asks_for(first, f) || asks_for(second, f) by {
        if asks_for(joined, f) {
            let i = choose|i: int| 1 <= i < joined.len() && short_flag(joined[i]) == Some(f);
            if i <= x.len() {
                assert(first[i] == joined[i]);
            } else {
                assert(second[i - x.len()] == joined[i]);
            }
        }
        if asks_for(first, f) {
            let i = choose|i: int| 1 <= i < first.len() && short_flag(first[i]) == Some(f);
            assert(joined[i] == first[i]);
        }
        if asks_for(second, f) {
            let i = choose|i: int| 1 <= i < second.len() && short_flag(second[i]) == Some(f);
            assert(joined[i + x.len()] == second[i]);
        }
    }
    assert(recognized(one[0]) <==> recognized(two[0]) && recognized(two[1]));
    assert forall|f: Flag| flags_asked(one).contains(f) <==> flags_asked(two).contains(f) by {
        assert(flags_asked(one).contains(f) <==> asks_for(one[0], f));
        assert(flags_asked(two).contains(f) <==> asks_for(two[0], f) || asks_for(two[1], f));
    }
    assert(flags_asked(one) =~= flags_asked(two));
}

/// The letter of a flag.
pub open spec fn letter_of(f: Flag) -> char {
    match f {
        Flag::Total => 't',
        Flag::Subtotals => 's',
        Flag::Help => 'h',
    }
}

/// The long spelling of a flag.
pub open spec fn word_of(f: Flag) -> Seq<char> {
    match f {
        Flag::Total => "--total"@,
        Flag::Subtotals => "--subtotals"@,
        Flag::Help => "--help"@,
    }
}

/// The long spelling of a flag and its letter behind a `-` both ask for
/// that flag and for nothing else.
pub proof fn lemma_spellings_agree(f: Flag)
    ensures
        flags_outcome(seq![word_of(f)]) == Ok::<Set<Flag>, ParseError>(set![f]),
        flags_outcome(seq![seq!['-', letter_of(f)]]) == Ok::<Set<Flag>, ParseError>(set![f]),
{
    reveal_strlit("--total");
    reveal_strlit("--subtotals");
    reveal_strlit("--help");
    let long = seq![word_of(f)];
    let short = seq![seq!['-', letter_of(f)]];
    assert(is_long_token(long[0]) && long_flag(long[0]) == Some(f));
    assert(!is_long_token(short[0]));
    assert(short_flag(short[0][1]) == Some(f));
    assert forall|g: Flag| flags_asked(long).contains(g) <==> g == f by {
        assert(flags_asked(long).contains(g) <==> asks_for(long[0], g));
    }
    assert forall|g: Flag| flags_asked(short).contains(g) <==> g == f by {
        assert(flags_asked(short).contains(g) <==> asks_for(short[0], g));
    }
    assert(flags_asked(long) =~= set![f]);
    assert(flags_asked(short) =~= set![f]);
}

/// One flag token that is not recognized refuses the whole list.
pub proof fn lemma_unrecognized_refuses(tokens: Seq<Seq<char>>, i: int)
    requires
        0 <= i < tokens.len(),
        !recognized(tokens[i]),
    ensures
        flags_outcome(tokens) == Err::<Set<Flag>, ParseError>(ParseError::Flag),
{
}

/// The flag that the letter `c` stands for.
pub fn flag_of_letter(c: char) -> (r: Option<Flag>)
    ensures
        r == short_flag(c),
{
    if c == 's' {
        Some(Flag::Subtotals)
    } else if c == 't' {
        Some(Flag::Total)
    } else if c == 'h' {
        Some(Flag::Help)
    } else {
        None
    }
}

/// The flag that the long token `chars` spells out.
pub fn flag_of_word(chars: &Vec<char>) -> (r: Option<Flag>)
    ensures
        r == long_flag(chars@),
{
    if same_chars(chars, "--subtotals") {
        Some(Flag::Subtotals)
    } else if same_chars(chars, "--total") {
        Some(Flag::Total)
    } else if same_chars(chars, "--help") {
        Some(Flag::Help)
    } else {
        None
    }
}

/// Decodes one flag token: the flags it asks for, or `None` if it is not
/// recognized.
pub fn token_flags(token: &str) -> (r: Option<FlagSet>)
    ensures
        r is Some <==> recognized(token@),
        r is Some ==> forall|f: Flag| r.unwrap()@.contains(f) <==> asks_for(token@, f),
{
    let chars = chars_of(token);
    let n = chars.len();
    let mut flags = FlagSet::new();
    if n >= 2 && chars[0] == '-' && chars[1] == '-' {
        match flag_of_word(&chars) {
            Some(f) => {
                flags.insert(f);
                assert(forall|g: Flag| #[trigger] flags@.contains(g) <==> g == f);
                Some(flags)
            },
            None => None,
        }
    } else {
        let mut i: usize = if n == 0 {
            0
        } else {
            1
        };
        while i < n
            invariant
                i <= n,
                n == 0 || 1 <= i,
                n == chars.len(),
                chars@ == token@,
                !is_long_token(token@),
                forall|j: int| 1 <= j < i ==> short_flag(#[trigger] chars@[j]) is Some,
                forall|f: Flag|
                    flags@.contains(f) <==> exists|j: int|
                        1 <= j < i && short_flag(#[trigger] chars@[j]) == Some(f),
            decreases n - i,
        {
            let ghost before = flags@;
            match flag_of_letter(chars[i]) {
                Some(f) => {
                    flags.insert(f);
                },
                None => {
                    return None;
                },
            }
            i = i + 1;
            assert forall|f: Flag|
                flags@.contains(f) <==> exists|j: int|
                    1 <= j < i && short_flag(#[trigger] chars@[j]) == Some(f) by {
                let here = short_flag(chars@[i - 1]);
                assert(flags@.contains(f) <==> before.contains(f) || here == Some(f));
            }
        }
        Some(flags)
    }
}

/// Decodes flag tokens into the set of flags they ask for.
///
/// A token that begins with `--` must spell out `--total`, `--subtotals` or
/// `--help`. In any other token the first character is skipped and each of
/// the rest must be one of the letters `t`, `s`, `h`. The first token that
/// is not recognized ends the decoding with `ParseError::Flag`.
pub fn parsed_flags(string_flags: Vec<String>) -> (r: Result<FlagSet, ParseError>)
    ensures
        match r {
            Ok(flags) => flags_outcome(string_flags.deep_view()) == Ok::<Set<Flag>, ParseError>(
                flags@,
            ),
            Err(e) => flags_outcome(string_flags.deep_view()) == Err::<Set<Flag>, ParseError>(e),
        },
{
    let ghost tokens = string_flags.deep_view();
    let mut flags = FlagSet::new();
    let mut i: usize = 0;
    while i < string_flags.len()
        invariant
            i <= string_flags.len(),
            tokens == string_flags.deep_view(),
            forall|j: int| 0 <= j < i ==> recognized(#[trigger] tokens[j]),
            forall|f: Flag|
                flags@.contains(f) <==> exists|j: int|
                    0 <= j < i && asks_for(#[trigger] tokens[j], f),
        decreases string_flags.len() - i,
    {
        assert(tokens[i as int] == string_flags[i as int]@);
        match token_flags(string_flags[i].as_str()) {
            Some(more) => {
                flags = flags.union(more);
            },
            None => {
                return Err(ParseError::Flag);
            },
        }
        i = i + 1;
    }
    assert(flags@ == flags_asked(tokens));
    Ok(flags)
}

} // verus!
