use vstd::prelude::*;

verus! {

broadcast use vstd::string::group_string_axioms;

// ---------------------------------------------------------------------------
// Words
// ---------------------------------------------------------------------------

/// Characters with the Unicode `White_Space` property.
pub open spec fn is_unicode_whitespace(c: char) -> bool {
    ||| ('\u{9}' <= c && c <= '\u{d}')
    ||| c == ' '
    ||| c == '\u{85}'
    ||| c == '\u{a0}'
    ||| c == '\u{1680}'
    ||| ('\u{2000}' <= c && c <= '\u{200a}')
    ||| c == '\u{2028}'
    ||| c == '\u{2029}'
    ||| c == '\u{202f}'
    ||| c == '\u{205f}'
    ||| c == '\u{3000}'
}

/// The words of `s` after the partial word `cur`: the maximal runs of
/// non-whitespace characters, in order.
pub open spec fn words_after(s: Seq<char>, cur: Seq<char>) -> Seq<Seq<char>>
    decreases s.len(),
{
    if s.len() == 0 {
        if cur.len() > 0 {
            seq![cur]
        } else {
            Seq::empty()
        }
    } else if is_unicode_whitespace(s[0]) {
        (if cur.len() > 0 {
            seq![cur]
        } else {
            Seq::empty()
        }) + words_after(s.drop_first(), Seq::empty())
    } else {
        words_after(s.drop_first(), cur.push(s[0]))
    }
}

/// The words of `s`: its maximal runs of non-whitespace characters.
pub open spec fn whitespace_words(s: Seq<char>) -> Seq<Seq<char>> {
    words_after(s, Seq::empty())
}

/// Mathematical value of a list of strings.
pub open spec fn strings_view(v: Seq<String>) -> Seq<Seq<char>> {
    v.map_values(|w: String| w@)
}

/// Whether `c` has the Unicode `White_Space` property.
fn is_whitespace_char(c: char) -> (r: bool)
    ensures
        r == is_unicode_whitespace(c),
{
    ('\u{9}' <= c && c <= '\u{d}') || c == ' ' || c == '\u{85}' || c == '\u{a0}' || c == '\u{1680}'
        || ('\u{2000}' <= c && c <= '\u{200a}') || c == '\u{2028}' || c == '\u{2029}' || c
        == '\u{202f}' || c == '\u{205f}' || c == '\u{3000}'
}

/// The words of `s`, as `str::split_whitespace` gives them: the non-empty
/// runs of characters between whitespace characters, in order.
fn split_words(s: &str) -> (r: Vec<String>)
    ensures
        strings_view(r@) == whitespace_words(s@),
{
    let ghost sv = s@;
    let chars = chars_of(s);
    let n = chars.len();
    let mut words: Vec<String> = Vec::new();
    let mut start: usize = 0;
    let mut i: usize = 0;
    proof {
        assert(sv.subrange(0, n as int) =~= sv);
        assert(sv.subrange(0, 0) =~= Seq::<char>::empty());
    }
    while i < n
        invariant
            chars@ == sv,
            n == sv.len(),
            s@ == sv,
            start <= i <= n,
            strings_view(words@) + words_after(sv.subrange(i as int, n as int), sv.subrange(
                start as int,
                i as int,
            )) == whitespace_words(sv),
        decreases n - i,
    {
        let ghost rest = sv.subrange(i as int, n as int);
        let ghost cur = sv.subrange(start as int, i as int);
        proof {
            assert(rest[0] == sv[i as int]);
            assert(rest.drop_first() =~= sv.subrange(i + 1, n as int));
        }
        let c = chars[i];
        if is_whitespace_char(c) {
            let ghost before = words@;
            if start < i {
                let w = String::from_str(s.substring_char(start, i));
                words.push(w);
                proof {
                    assert(strings_view(words@) =~= strings_view(before).push(cur));
                    assert(strings_view(words@) =~= strings_view(before) + seq![cur]);
                }
            } else {
                proof {
                    assert(cur.len() == 0);
                }
            }
            proof {
                assert(sv.subrange(i + 1, i + 1) =~= Seq::<char>::empty());
                let head: Seq<Seq<char>> = if cur.len() > 0 {
                    seq![cur]
                } else {
                    Seq::empty()
                };
                assert(words_after(rest, cur) == head + words_after(
                    sv.subrange(i + 1, n as int),
                    Seq::empty(),
                ));
                assert(strings_view(words@) =~= strings_view(before) + head);
                assert(strings_view(before) + (head + words_after(
                    sv.subrange(i + 1, n as int),
                    Seq::empty(),
                )) =~= strings_view(words@) + words_after(
                    sv.subrange(i + 1, n as int),
                    Seq::empty(),
                ));
            }
            start = i + 1;
        } else {
            proof {
                assert(cur.push(sv[i as int]) =~= sv.subrange(start as int, i + 1));
            }
        }
        i += 1;
    }
    proof {
        assert(sv.subrange(n as int, n as int) =~= Seq::<char>::empty());
    }
    let ghost before = words@;
    if start < n {
        let w = String::from_str(s.substring_char(start, n));
        words.push(w);
        proof {
            assert(strings_view(words@) =~= strings_view(before) + seq![
                sv.subrange(start as int, n as int),
            ]);
        }
    } else {
        proof {
            assert(strings_view(words@) =~= strings_view(before) + Seq::<Seq<char>>::empty());
        }
    }
    words
}

/// What `str::to_uppercase` returns for the characters `s`.
pub uninterp spec fn uppercase(s: Seq<char>) -> Seq<char>;

/// Upper-cases `s` with `str::to_uppercase`. Claimed: the result depends on
/// the characters of `s` alone; the Unicode case tables it applies are left
/// unsaid.
#[verifier::external_body]
fn to_uppercase(s: &str) -> (r: String)
    ensures
        r@ == uppercase(s@),
{
    s.to_uppercase()
}

/// The characters of `s`, in order.
pub(crate) fn chars_of(s: &str) -> (r: Vec<char>)
    ensures
        r@ == s@,
{
    let ghost sv = s@;
    let mut out: Vec<char> = Vec::new();
    for c in it: s.chars()
        invariant
            it.seq() == sv,
            out@.len() == it.index(),
            forall|k: int| 0 <= k < out@.len() ==> out@[k] == sv[k],
    {
        out.push(c);
    }
    assert(out@ =~= sv);
    out
}

// ---------------------------------------------------------------------------
// Unsigned numbers
// ---------------------------------------------------------------------------

pub open spec fn is_digit(c: char) -> bool {
    '0' <= c && c <= '9'
}

pub open spec fn all_digits(s: Seq<char>) -> bool {
    forall|i: int| 0 <= i < s.len() ==> is_digit(#[trigger] s[i])
}

/// The decimal value of the digits `s`.
pub open spec fn decimal_value(s: Seq<char>) -> nat
    decreases s.len(),
{
    if s.len() == 0 {
        0
    } else {
        decimal_value(s.drop_last()) * 10 + ((s.last() as u32) - ('0' as u32)) as nat
    }
}

/// The digits of an unsigned number: `s` without a leading `+`.
pub open spec fn number_digits(s: Seq<char>) -> Seq<char> {
    if s.len() > 0 && s[0] == '+' {
        s.drop_first()
    } else {
        s
    }
}

/// The value of `s` read as an unsigned number no larger than `max`, the
/// way `u64::from_str` and `u32::from_str` read it: an optional `+`, then
/// one or more decimal digits. `None` when `s` is not such a number or its
/// value is above `max`.
pub open spec fn unsigned_value(s: Seq<char>, max: nat) -> Option<nat> {
    let d = number_digits(s);
    if d.len() > 0 && all_digits(d) && decimal_value(d) <= max {
        Some(decimal_value(d))
    } else {
        None
    }
}

proof fn lemma_decimal_value_grows(s: Seq<char>, i: int)
    requires
        0 <= i <= s.len(),
        all_digits(s),
    ensures
        decimal_value(s.take(i)) <= decimal_value(s),
    decreases s.len() - i,
{
    if i < s.len() {
        lemma_decimal_value_grows(s, i + 1);
        assert(s.take(i + 1).drop_last() =~= s.take(i));
    } else {
        assert(s.take(i) =~= s);
    }
}

/// Reads `s` as an unsigned number no larger than `max`.
fn parse_unsigned(s: &str, max: u64) -> (r: Option<u64>)
    ensures
        match r {
            Some(v) => unsigned_value(s@, max as nat) == Some(v as nat),
            None => unsigned_value(s@, max as nat) is None,
        },
{
    let cs = chars_of(s);
    proof {
        assert(cs@.skip(0) =~= s@);
    }
    parse_unsigned_chars(&cs, 0, max)
}

/// Reads the characters of `cs` from `from` on as an unsigned number no
/// larger than `max`.
pub(crate) fn parse_unsigned_chars(cs: &Vec<char>, from: usize, max: u64) -> (r: Option<u64>)
    requires
        from <= cs@.len(),
    ensures
        match r {
            Some(v) => unsigned_value(cs@.skip(from as int), max as nat) == Some(v as nat),
            None => unsigned_value(cs@.skip(from as int), max as nat) is None,
        },
{
    let ghost t = cs@.skip(from as int);
    let start: usize = if from < cs.len() && cs[from] == '+' {
        from + 1
    } else {
        from
    };
    let ghost d = number_digits(t);
    proof {
        assert(d =~= cs@.skip(start as int));
    }
    if start >= cs.len() {
        return None;
    }
    let mut value: u64 = 0;
    let mut i: usize = start;
    while i < cs.len()
        invariant
            t == cs@.skip(from as int),
            d == number_digits(t),
            d == cs@.skip(start as int),
            d.len() > 0,
            start <= i <= cs@.len(),
            all_digits(d.take(i - start)),
            value as nat == decimal_value(d.take(i - start)),
            value <= max,
        decreases cs@.len() - i,
    {
        let c = cs[i];
        proof {
            assert(d[i - start] == c);
            assert(d.take(i - start + 1).drop_last() =~= d.take(i - start));
        }
        if !('0' <= c && c <= '9') {
            proof {
                assert(!is_digit(d[i - start]));
            }
            return None;
        }
        assert((c as u32) >= ('0' as u32) && (c as u32) <= ('9' as u32));
        let digit = (c as u32 - '0' as u32) as u64;
        if digit > max || value > (max - digit) / 10 {
            proof {
                assert(value * 10 + digit > max) by (nonlinear_arith)
                    requires
                        digit > max || value > (max - digit) / 10,
                        digit <= 9,
                ;
                if all_digits(d) {
                    lemma_decimal_value_grows(d, i - start + 1);
                }
            }
            return None;
        }
        proof {
            assert(value * 10 + digit <= max) by (nonlinear_arith)
                requires
                    value <= (max - digit) / 10,
                    digit <= max,
            ;
        }
        value = value * 10 + digit;
        i += 1;
    }
    proof {
        assert(d.take(i - start) =~= d);
    }
    Some(value)
}

// ---------------------------------------------------------------------------
// Commands
// ---------------------------------------------------------------------------

/// The command whose usage line is shown.
#[derive(Debug, Clone, Copy, PartialEq, Eq, Structural)]
pub enum CliUsage {
    Get,
    Put,
    Del,
    Scan,
    KvGet,
    KvScan,
    KvPrewrite,
    KvCommit,
}

/// A number of a command that could not be read.
#[derive(Debug, Clone, Copy, PartialEq, Eq, Structural)]
pub enum CliNumber {
    Version,
    StartVersion,
    CommitVersion,
}

/// A line typed at the command prompt.
#[derive(Debug)]
pub enum CliCommand {
    /// A blank line.
    Empty,
    Get { key: String, cf: String },
    /// `SET`: a put of `value` under `key`.
    Put { key: String, value: String, cf: String },
    Del { key: String, cf: String },
    Scan { start_key: String, limit: u32, cf: String },
    Quit,
    KvGet { key: String, version: u64 },
    KvScan { start_key: String, limit: u32, version: u64 },
    /// A prewrite of `mutations`; `missing_value` is a last key given
    /// without a value (it is left out).
    KvPrewrite {
        primary_key: String,
        start_version: u64,
        lock_ttl: u64,
        mutations: Vec<(String, String)>,
        missing_value: Option<String>,
    },
    KvCommit { start_version: u64, commit_version: u64, keys: Vec<String> },
    Help,
    /// Too few arguments for the command.
    Usage(CliUsage),
    InvalidNumber(CliNumber),
    /// The first word names no command.
    Unknown(String),
}

/// Mathematical value of a command line.
pub enum CliCommandView {
    Empty,
    Get { key: Seq<char>, cf: Seq<char> },
    Put { key: Seq<char>, value: Seq<char>, cf: Seq<char> },
    Del { key: Seq<char>, cf: Seq<char> },
    Scan { start_key: Seq<char>, limit: u32, cf: Seq<char> },
    Quit,
    KvGet { key: Seq<char>, version: u64 },
    KvScan { start_key: Seq<char>, limit: u32, version: u64 },
    KvPrewrite {
        primary_key: Seq<char>,
        start_version: u64,
        lock_ttl: u64,
        mutations: Seq<(Seq<char>, Seq<char>)>,
        missing_value: Option<Seq<char>>,
    },
    KvCommit { start_version: u64, commit_version: u64, keys: Seq<Seq<char>> },
    Help,
    Usage(CliUsage),
    InvalidNumber(CliNumber),
    Unknown(Seq<char>),
}

/// Mathematical value of a list of string pairs.
pub open spec fn pairs_view(v: Seq<(String, String)>) -> Seq<(Seq<char>, Seq<char>)> {
    v.map_values(|p: (String, String)| (p.0@, p.1@))
}

impl View for CliCommand {
    type V = CliCommandView;

    open spec fn view(&self) -> CliCommandView {
        match self {
            CliCommand::Empty => CliCommandView::Empty,
            CliCommand::Get { key, cf } => CliCommandView::Get { key: key@, cf: cf@ },
            CliCommand::Put { key, value, cf } => CliCommandView::Put {
                key: key@,
                value: value@,
                cf: cf@,
            },
            CliCommand::Del { key, cf } => CliCommandView::Del { key: key@, cf: cf@ },
            CliCommand::Scan { start_key, limit, cf } => CliCommandView::Scan {
                start_key: start_key@,
                limit: *limit,
                cf: cf@,
            },
            CliCommand::Quit => CliCommandView::Quit,
            CliCommand::KvGet { key, version } => CliCommandView::KvGet {
                key: key@,
                version: *version,
            },
            CliCommand::KvScan { start_key, limit, version } => CliCommandView::KvScan {
                start_key: start_key@,
                limit: *limit,
                version: *version,
            },
            CliCommand::KvPrewrite {
                primary_key,
                start_version,
                lock_ttl,
                mutations,
                missing_value,
            } => CliCommandView::KvPrewrite {
                primary_key: primary_key@,
                start_version: *start_version,
                lock_ttl: *lock_ttl,
                mutations: pairs_view(mutations@),
                missing_value: match missing_value {
                    Some(k) => Some(k@),
                    None => None,
                },
            },
            CliCommand::KvCommit { start_version, commit_version, keys } => CliCommandView::KvCommit {
                start_version: *start_version,
                commit_version: *commit_version,
                keys: strings_view(keys@),
            },
            CliCommand::Help => CliCommandView::Help,
            CliCommand::Usage(u) => CliCommandView::Usage(*u),
            CliCommand::InvalidNumber(n) => CliCommandView::InvalidNumber(*n),
            CliCommand::Unknown(w) => CliCommandView::Unknown(w@),
        }
    }
}

/// The column family named at `parts[i]`, `default` when there is none.
pub open spec fn cf_at(parts: Seq<Seq<char>>, i: int) -> Seq<char> {
    if i < parts.len() {
        parts[i]
    } else {
        "default"@
    }
}

/// `s` read as an unsigned number no larger than `max`, or `default`.
pub open spec fn number_or(s: Seq<char>, max: nat, default: nat) -> nat {
    match unsigned_value(s, max) {
        Some(v) => v,
        None => default,
    }
}

/// The key-value pairs given from `parts[4]` on.
pub open spec fn prewrite_pairs(parts: Seq<Seq<char>>) -> Seq<(Seq<char>, Seq<char>)> {
    Seq::new(((parts.len() - 4) / 2) as nat, |k: int| (parts[4 + 2 * k], parts[5 + 2 * k]))
}

/// The command a line of words `parts` asks for; the first word is read
/// without regard to case.
pub open spec fn spec_parse_cli(parts: Seq<Seq<char>>) -> CliCommandView {
    if parts.len() == 0 {
        CliCommandView::Empty
    } else {
        let cmd = uppercase(parts[0]);
        if cmd == "GET"@ {
            if parts.len() < 2 {
                CliCommandView::Usage(CliUsage::Get)
            } else {
                CliCommandView::Get { key: parts[1], cf: cf_at(parts, 2) }
            }
        } else if cmd == "SET"@ {
            if parts.len() < 3 {
                CliCommandView::Usage(CliUsage::Put)
            } else {
                CliCommandView::Put { key: parts[1], value: parts[2], cf: cf_at(parts, 3) }
            }
        } else if cmd == "DEL"@ || cmd == "DELETE"@ {
            if parts.len() < 2 {
                CliCommandView::Usage(CliUsage::Del)
            } else {
                CliCommandView::Del { key: parts[1], cf: cf_at(parts, 2) }
            }
        } else if cmd == "SCAN"@ {
            if parts.len() < 3 {
                CliCommandView::Usage(CliUsage::Scan)
            } else {
                CliCommandView::Scan {
                    start_key: parts[1],
                    limit: number_or(parts[2], u32::MAX as nat, 10) as u32,
                    cf: cf_at(parts, 3),
                }
            }
        } else if cmd == "QUIT"@ || cmd == "EXIT"@ || cmd == "Q"@ {
            CliCommandView::Quit
        } else if cmd == "KVGET"@ {
            if parts.len() < 3 {
                CliCommandView::Usage(CliUsage::KvGet)
            } else {
                match unsigned_value(parts[2], u64::MAX as nat) {
                    None => CliCommandView::InvalidNumber(CliNumber::Version),
                    Some(v) => CliCommandView::KvGet { key: parts[1], version: v as u64 },
                }
            }
        } else if cmd == "KVSCAN"@ {
            if parts.len() < 4 {
                CliCommandView::Usage(CliUsage::KvScan)
            } else {
                match unsigned_value(parts[3], u64::MAX as nat) {
                    None => CliCommandView::InvalidNumber(CliNumber::Version),
                    Some(v) => CliCommandView::KvScan {
                        start_key: parts[1],
                        limit: number_or(parts[2], u32::MAX as nat, 10) as u32,
                        version: v as u64,
                    },
                }
            }
        } else if cmd == "KVPREWRITE"@ {
            if parts.len() < 6 {
                CliCommandView::Usage(CliUsage::KvPrewrite)
            } else {
                match unsigned_value(parts[2], u64::MAX as nat) {
                    None => CliCommandView::InvalidNumber(CliNumber::StartVersion),
                    Some(v) => CliCommandView::KvPrewrite {
                        primary_key: parts[1],
                        start_version: v as u64,
                        lock_ttl: number_or(parts[3], u64::MAX as nat, 3000) as u64,
                        mutations: prewrite_pairs(parts),
                        missing_value: if (parts.len() - 4) % 2 == 1 {
                            Some(parts[parts.len() - 1])
                        } else {
                            None
                        },
                    },
                }
            }
        } else if cmd == "KVCOMMIT"@ {
            if parts.len() < 4 {
                CliCommandView::Usage(CliUsage::KvCommit)
            } else {
                match unsigned_value(parts[1], u64::MAX as nat) {
                    None => CliCommandView::InvalidNumber(CliNumber::StartVersion),
                    Some(s) => match unsigned_value(parts[2], u64::MAX as nat) {
                        None => CliCommandView::InvalidNumber(CliNumber::CommitVersion),
                        Some(c) => CliCommandView::KvCommit {
                            start_version: s as u64,
                            commit_version: c as u64,
                            keys: parts.skip(3),
                        },
                    },
                }
            }
        } else if cmd == "HELP"@ || cmd == "?"@ {
            CliCommandView::Help
        } else {
            CliCommandView::Unknown(parts[0])
        }
    }
}

/// Whether `s` is the word `w`.
fn is_word(s: &String, w: &str) -> (r: bool)
    ensures
        r == (s@ == w@),
{
    *s == w.to_string()
}

/// `s` read as an unsigned number no larger than `max`, or `default`.
fn parse_or(s: &String, max: u64, default: u64) -> (r: u64)
    requires
        default <= max,
    ensures
        r == number_or(s@, max as nat, default as nat),
{
    match parse_unsigned(s.as_str(), max) {
        Some(v) => v,
        None => default,
    }
}

/// The column family named at `parts[i]`, `default` when there is none.
fn cf_arg(parts: &Vec<String>, i: usize) -> (r: String)
    ensures
        r@ == cf_at(strings_view(parts@), i as int),
{
    if i < parts.len() {
        parts[i].clone()
    } else {
        "default".to_string()
    }
}

/// The key-value pairs of a prewrite, from `parts[4]` on, and a last key
/// left without a value.
fn prewrite_mutations(parts: &Vec<String>) -> (r: (Vec<(String, String)>, Option<String>))
    requires
        parts@.len() >= 4,
    ensures
        pairs_view(r.0@) == prewrite_pairs(strings_view(parts@)),
        match r.1 {
            Some(k) => (parts@.len() - 4) % 2 == 1 && k@ == parts@[parts@.len() - 1]@,
            None => (parts@.len() - 4) % 2 == 0,
        },
{
    let ghost p = strings_view(parts@);
    let n: usize = parts.len();
    let mut mutations: Vec<(String, String)> = Vec::new();
    let mut i: usize = 4;
    while i + 1 < n
        invariant
            n == parts@.len(),
            p == strings_view(parts@),
            4 <= i <= n,
            (i - 4) % 2 == 0,
            mutations@.len() == (i - 4) / 2,
            forall|k: int|
                0 <= k < mutations@.len() ==> #[trigger] pairs_view(mutations@)[k] == (
                    p[4 + 2 * k],
                    p[5 + 2 * k],
                ),
        decreases n - i,
    {
        let ghost before = mutations@;
        mutations.push((parts[i].clone(), parts[i + 1].clone()));
        proof {
            assert forall|k: int| 0 <= k < mutations@.len() implies #[trigger] pairs_view(
                mutations@,
            )[k] == (p[4 + 2 * k], p[5 + 2 * k]) by {
                if k < before.len() {
                    assert(pairs_view(mutations@)[k] == pairs_view(before)[k]);
                }
            }
        }
        i += 2;
    }
    let missing_value = if i < n {
        Some(parts[i].clone())
    } else {
        None
    };
    assert(pairs_view(mutations@) =~= prewrite_pairs(p));
    (mutations, missing_value)
}

/// The words from `parts[from]` on.
fn words_from(parts: &Vec<String>, from: usize) -> (r: Vec<String>)
    requires
        from <= parts@.len(),
    ensures
        strings_view(r@) == strings_view(parts@).skip(from as int),
{
    let ghost p = strings_view(parts@);
    let mut words: Vec<String> = Vec::new();
    let mut i: usize = from;
    while i < parts.len()
        invariant
            p == strings_view(parts@),
            from <= i <= parts@.len(),
            words@.len() == i - from,
            forall|k: int| 0 <= k < words@.len() ==> #[trigger] words@[k]@ == p[from + k],
        decreases parts@.len() - i,
    {
        words.push(parts[i].clone());
        i += 1;
    }
    assert(strings_view(words@) =~= p.skip(from as int));
    words
}

/// The command a line of words asks for.
pub fn parse_cli_words(parts: &Vec<String>) -> (r: CliCommand)
    ensures
        r@ == spec_parse_cli(strings_view(parts@)),
{
    let ghost p = strings_view(parts@);
    let n: usize = parts.len();
    if n == 0 {
        return CliCommand::Empty;
    }
    let cmd = to_uppercase(parts[0].as_str());
    if is_word(&cmd, "GET") {
        if n < 2 {
            CliCommand::Usage(CliUsage::Get)
        } else {
            CliCommand::Get { key: parts[1].clone(), cf: cf_arg(parts, 2) }
        }
    } else if is_word(&cmd, "SET") {
        if n < 3 {
            CliCommand::Usage(CliUsage::Put)
        } else {
            CliCommand::Put { key: parts[1].clone(), value: parts[2].clone(), cf: cf_arg(parts, 3) }
        }
    } else if is_word(&cmd, "DEL") || is_word(&cmd, "DELETE") {
        if n < 2 {
            CliCommand::Usage(CliUsage::Del)
        } else {
            CliCommand::Del { key: parts[1].clone(), cf: cf_arg(parts, 2) }
        }
    } else if is_word(&cmd, "SCAN") {
        if n < 3 {
            CliCommand::Usage(CliUsage::Scan)
        } else {
            let limit = parse_or(&parts[2], 4294967295, 10) as u32;
            CliCommand::Scan { start_key: parts[1].clone(), limit, cf: cf_arg(parts, 3) }
        }
    } else if is_word(&cmd, "QUIT") || is_word(&cmd, "EXIT") || is_word(&cmd, "Q") {
        CliCommand::Quit
    } else if is_word(&cmd, "KVGET") {
        if n < 3 {
            CliCommand::Usage(CliUsage::KvGet)
        } else {
            match parse_unsigned(parts[2].as_str(), u64::MAX) {
                None => CliCommand::InvalidNumber(CliNumber::Version),
                Some(version) => CliCommand::KvGet { key: parts[1].clone(), version },
            }
        }
    } else if is_word(&cmd, "KVSCAN") {
        if n < 4 {
            CliCommand::Usage(CliUsage::KvScan)
        } else {
            let limit = parse_or(&parts[2], 4294967295, 10) as u32;
            match parse_unsigned(parts[3].as_str(), u64::MAX) {
                None => CliCommand::InvalidNumber(CliNumber::Version),
                Some(version) => CliCommand::KvScan { start_key: parts[1].clone(), limit, version },
            }
        }
    } else if is_word(&cmd, "KVPREWRITE") {
        if n < 6 {
            CliCommand::Usage(CliUsage::KvPrewrite)
        } else {
            match parse_unsigned(parts[2].as_str(), u64::MAX) {
                None => CliCommand::InvalidNumber(CliNumber::StartVersion),
                Some(start_version) => {
                    let lock_ttl = parse_or(&parts[3], u64::MAX, 3000);
                    let (mutations, missing_value) = prewrite_mutations(parts);
                    CliCommand::KvPrewrite {
                        primary_key: parts[1].clone(),
                        start_version,
                        lock_ttl,
                        mutations,
                        missing_value,
                    }
                },
            }
        }
    } else if is_word(&cmd, "KVCOMMIT") {
        if n < 4 {
            CliCommand::Usage(CliUsage::KvCommit)
        } else {
            match parse_unsigned(parts[1].as_str(), u64::MAX) {
                None => CliCommand::InvalidNumber(CliNumber::StartVersion),
                Some(start_version) => match parse_unsigned(parts[2].as_str(), u64::MAX) {
                    None => CliCommand::InvalidNumber(CliNumber::CommitVersion),
                    Some(commit_version) => {
                        let keys = words_from(parts, 3);
                        CliCommand::KvCommit { start_version, commit_version, keys }
                    },
                },
            }
        }
    } else if is_word(&cmd, "HELP") || is_word(&cmd, "?") {
        CliCommand::Help
    } else {
        CliCommand::Unknown(parts[0].clone())
    }
}

/// The command a line typed at the prompt asks for: the line is split into
/// words at whitespace, and the first word names the command.
pub fn parse_cli_line(line: &str) -> (r: CliCommand)
    ensures
        r@ == spec_parse_cli(whitespace_words(line@)),
{
    let parts = split_words(line);
    parse_cli_words(&parts)
}

} // verus!
