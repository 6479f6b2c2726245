//! The literal form of each kind of part, and the law that reading the
//! literal form gives the part back.

use crate::grammar::{
    all_digits, close, closed_tokens, convert_keys, convert_part, convert_parts, decimal_value,
    end_of_line, finished_parts, is_digit, is_separator, parse_delay, parse_line, peek,
    scan_from, start, step, unsigned_digits, Mode, RawPart, Scan,
};
use crate::part::{Key, PartModel};
use crate::registry::{lookup, Entries};
use crate::text::decimal;
use vstd::prelude::*;

verus! {

/// The literal form of a reference to the argument `name`: `$@name$`.
pub open spec fn arg_literal(name: Seq<char>) -> Seq<char> {
    seq!['$', '@'] + name + seq!['$']
}

/// The tokens joined by `+`.
pub open spec fn join_tokens(tokens: Seq<Seq<char>>) -> Seq<char>
    decreases tokens.len(),
{
    if tokens.len() == 0 {
        Seq::empty()
    } else if tokens.len() == 1 {
        tokens[0]
    } else {
        tokens[0] + seq!['+'] + join_tokens(tokens.drop_first())
    }
}

/// The literal form of the combo of `tokens`: `$!a+b$`.
pub open spec fn combo_literal(tokens: Seq<Seq<char>>) -> Seq<char> {
    seq!['$', '!'] + join_tokens(tokens) + seq!['$']
}

/// A name that can be written between `$@` and `$`: it is not empty, holds no
/// `$`, and holds no `::`.
pub open spec fn plain_name(name: Seq<char>) -> bool {
    &&& name.len() > 0
    &&& forall|i: int| 0 <= i < name.len() ==> #[trigger] name[i] != '$'
    &&& forall|i: int| 0 <= i < name.len() - 1 ==> !(#[trigger] name[i] == ':' && name[i + 1] == ':')
}

/// A token that can be written in a combo: it is not empty and holds neither
/// `$` nor a separator.
pub open spec fn plain_token(token: Seq<char>) -> bool {
    &&& token.len() > 0
    &&& forall|i: int|
        0 <= i < token.len() ==> #[trigger] token[i] != '$' && !is_separator(token[i])
}

/// Every token can be written in a combo.
pub open spec fn plain_tokens(tokens: Seq<Seq<char>>) -> bool {
    forall|i: int| 0 <= i < tokens.len() ==> plain_token(#[trigger] tokens[i])
}

/// The literal form of a reference to the argument `name`.
pub fn render_arg(name: &str) -> (literal: String)
    ensures
        literal@ == arg_literal(name@),
{
    let mut literal = String::new();
    literal.push('$');
    literal.push('@');
    let chars = crate::text::chars_of(name);
    let mut i: usize = 0;
    while i < chars.len()
        invariant
            i <= chars.len(),
            chars@ == name@,
            literal@ == seq!['$', '@'] + name@.take(i as int),
        decreases chars.len() - i,
    {
        literal.push(chars[i]);
        assert(name@.take(i + 1) =~= name@.take(i as int).push(chars[i as int]));
        i += 1;
    }
    assert(name@.take(i as int) =~= name@);
    literal.push('$');
    literal
}

/// Joining one more token adds `+` and the token, or just the token where it
/// is the first.
proof fn lemma_join_push(tokens: Seq<Seq<char>>, last: Seq<char>)
    ensures
        join_tokens(tokens.push(last)) == if tokens.len() == 0 {
            last
        } else {
            join_tokens(tokens) + seq!['+'] + last
        },
    decreases tokens.len(),
{
    let longer = tokens.push(last);
    if tokens.len() > 0 {
        assert(longer.drop_first() =~= tokens.drop_first().push(last));
        lemma_join_push(tokens.drop_first(), last);
        if tokens.len() == 1 {
            assert(tokens.drop_first().len() == 0);
            assert(join_tokens(longer) =~= join_tokens(tokens) + seq!['+'] + last);
        } else {
            assert(join_tokens(longer) =~= join_tokens(tokens) + seq!['+'] + last);
        }
    }
}

/// The literal form of the combo of `keys`, each written by its name.
pub fn render_combo(keys: &Vec<Key>) -> (literal: String)
    ensures
        literal@ == combo_literal(keys.deep_view()),
{
    let ghost names = keys.deep_view();
    let mut literal = String::new();
    literal.push('$');
    literal.push('!');
    assert(names.take(0) =~= Seq::<Seq<char>>::empty());
    let mut i: usize = 0;
    while i < keys.len()
        invariant
            i <= keys.len(),
            names == keys.deep_view(),
            literal@ == seq!['$', '!'] + join_tokens(names.take(i as int)),
        decreases keys.len() - i,
    {
        proof {
            lemma_join_push(names.take(i as int), names[i as int]);
            assert(names.take(i + 1) =~= names.take(i as int).push(names[i as int]));
        }
        if i > 0 {
            literal.push('+');
        }
        let ghost head = literal@;
        let name = crate::text::chars_of(keys[i].name.as_str());
        let mut k: usize = 0;
        while k < name.len()
            invariant
                k <= name.len(),
                literal@ == head + name@.take(k as int),
            decreases name.len() - k,
        {
            literal.push(name[k]);
            assert(name@.take(k + 1) =~= name@.take(k as int).push(name[k as int]));
            k += 1;
        }
        assert(name@.take(k as int) =~= name@);
        assert(literal@ =~= seq!['$', '!'] + join_tokens(names.take(i + 1)));
        i += 1;
    }
    assert(names.take(i as int) =~= names);
    literal.push('$');
    literal
}

/// Reading the characters of a name adds them to the name.
proof fn lemma_scan_name(line: Seq<char>, i: int, k: int, s: Scan)
    requires
        s.mode matches Mode::Arg { name, default } && default is None,
        !s.arglist,
        0 <= i,
        0 <= k,
        i + k <= line.len(),
        forall|j: int|
            i <= j < i + k ==> #[trigger] line[j] != '$' && !(line[j] == ':' && peek(line, j)
                == Some(':')),
    ensures
        scan_from(line, i, s) == scan_from(
            line,
            i + k,
            Scan {
                mode: Mode::Arg {
                    name: s.mode->Arg_name + line.subrange(i, i + k),
                    default: None,
                },
                ..s
            },
        ),
    decreases k,
{
    let name = s.mode->Arg_name;
    if k == 0 {
        assert(name + line.subrange(i, i) =~= name);
    } else {
        assert(line[i] != '$');
        let after = step(s, line[i], peek(line, i));
        lemma_scan_name(line, i + 1, k - 1, after);
        assert(name.push(line[i]) + line.subrange(i + 1, i + k) =~= name + line.subrange(
            i,
            i + k,
        ));
    }
}

/// Reading the characters of a token adds them to the token.
proof fn lemma_scan_token(line: Seq<char>, i: int, k: int, s: Scan)
    requires
        s.mode is KeyCombo,
        !s.arglist,
        0 <= i,
        0 <= k,
        i + k <= line.len(),
        forall|j: int| i <= j < i + k ==> #[trigger] line[j] != '$' && !is_separator(line[j]),
    ensures
        scan_from(line, i, s) == scan_from(
            line,
            i + k,
            Scan {
                mode: Mode::KeyCombo {
                    tokens: s.mode->KeyCombo_tokens,
                    token: s.mode->KeyCombo_token + line.subrange(i, i + k),
                },
                ..s
            },
        ),
    decreases k,
{
    let token = s.mode->KeyCombo_token;
    if k == 0 {
        assert(token + line.subrange(i, i) =~= token);
    } else {
        assert(line[i] != '$' && !is_separator(line[i]));
        let after = step(s, line[i], peek(line, i));
        lemma_scan_token(line, i + 1, k - 1, after);
        assert(token.push(line[i]) + line.subrange(i + 1, i + k) =~= token + line.subrange(
            i,
            i + k,
        ));
    }
}

/// Reading tokens joined by `+` gives the tokens.
proof fn lemma_scan_tokens(line: Seq<char>, i: int, tokens: Seq<Seq<char>>, s: Scan)
    requires
        s.mode matches Mode::KeyCombo { tokens: _, token } && token.len() == 0,
        !s.arglist,
        tokens.len() > 0,
        plain_tokens(tokens),
        0 <= i,
        i + join_tokens(tokens).len() <= line.len(),
        line.subrange(i, i + join_tokens(tokens).len()) == join_tokens(tokens),
    ensures
        scan_from(line, i, s) == scan_from(
            line,
            i + join_tokens(tokens).len(),
            Scan {
                mode: Mode::KeyCombo {
                    tokens: s.mode->KeyCombo_tokens + tokens.drop_last(),
                    token: tokens.last(),
                },
                ..s
            },
        ),
    decreases tokens.len(),
{
    let held = s.mode->KeyCombo_tokens;
    let first = tokens[0];
    let joined = join_tokens(tokens);
    let n: int = first.len() as int;
    assert(plain_token(first));
    assert forall|j: int| i <= j < i + n implies #[trigger] line[j] != '$' && !is_separator(
        line[j],
    ) by {
        assert(line[j] == line.subrange(i, i + joined.len())[j - i]);
        assert(joined[j - i] == first[j - i]);
    }
    lemma_scan_token(line, i, n, s);
    assert(line.subrange(i, i + n) =~= first) by {
        assert forall|j: int| 0 <= j < n implies line.subrange(i, i + n)[j] == first[j] by {
            assert(line[i + j] == line.subrange(i, i + joined.len())[j]);
            assert(joined[j] == first[j]);
        }
    }
    let read = Scan { mode: Mode::KeyCombo { tokens: held, token: first }, ..s };
    assert(Seq::<char>::empty() + first =~= first);
    if tokens.len() == 1 {
        assert(held + tokens.drop_last() =~= held);
    } else {
        let rest = tokens.drop_first();
        assert(line[i + n] == '+') by {
            assert(line[i + n] == line.subrange(i, i + joined.len())[n]);
        }
        let after = step(read, line[i + n], peek(line, i + n));
        assert(after == Scan {
            mode: Mode::KeyCombo { tokens: held.push(first), token: Seq::empty() },
            ..s
        });
        assert(scan_from(line, i + n, read) == scan_from(line, i + n + 1, after));
        assert(plain_tokens(rest)) by {
            assert forall|j: int| 0 <= j < rest.len() implies plain_token(#[trigger] rest[j]) by {
                assert(rest[j] == tokens[j + 1]);
            }
        }
        assert(line.subrange(i + n + 1, i + n + 1 + join_tokens(rest).len()) =~= join_tokens(
            rest,
        )) by {
            assert forall|j: int| 0 <= j < join_tokens(rest).len() implies line.subrange(
                i + n + 1,
                i + n + 1 + join_tokens(rest).len(),
            )[j] == join_tokens(rest)[j] by {
                assert(line[i + n + 1 + j] == line.subrange(i, i + joined.len())[n + 1 + j]);
            }
        }
        lemma_scan_tokens(line, i + n + 1, rest, after);
        assert(held.push(first) + rest.drop_last() =~= held + tokens.drop_last());
        assert(rest.last() == tokens.last());
    }
}

/// Names that stand for themselves resolve to themselves.
pub proof fn lemma_own_names_resolve(names: Seq<Seq<char>>, keys: Entries)
    requires
        forall|i: int| 0 <= i < names.len() ==> lookup(keys, #[trigger] names[i]) == Some(names[i]),
    ensures
        convert_keys(names, keys) == Ok::<Seq<Seq<char>>, crate::error::ErrorModel>(names),
    decreases names.len(),
{
    if names.len() > 0 {
        let front = names.drop_last();
        assert forall|i: int| 0 <= i < front.len() implies lookup(keys, #[trigger] front[i])
            == Some(front[i]) by {
            assert(front[i] == names[i]);
        }
        lemma_own_names_resolve(front, keys);
        assert(front.push(names.last()) =~= names);
    } else {
        assert(names =~= Seq::<Seq<char>>::empty());
    }
}

/// Reading the literal form of an argument reference gives the reference
/// back: the line `$@name$` is the one part `Arg(name)` after an empty text,
/// with the registry untouched and nothing to report.
pub proof fn lemma_arg_round_trip(name: Seq<char>, keys: Entries, defaults: Entries)
    requires
        plain_name(name),
    ensures
        parse_line(arg_literal(name), keys, defaults).parts == Ok::<
            Seq<PartModel>,
            crate::error::ErrorModel,
        >(seq![PartModel::Text(Seq::empty()), PartModel::Arg(name)]),
        parse_line(arg_literal(name), keys, defaults).defaults == defaults,
        parse_line(arg_literal(name), keys, defaults).diagnostics == Seq::<
            crate::diagnostic::DiagnosticModel,
        >::empty(),
{
    let line = arg_literal(name);
    let n: int = name.len() as int;
    let s0 = start(defaults);
    let s1 = Scan { mode: Mode::Arg { name: Seq::empty(), default: None }, ..s0 };
    assert(line[0] == '$' && line[1] == '@');
    assert(scan_from(line, 0, s0) == scan_from(line, 2, s1));
    assert forall|j: int| 2 <= j < 2 + n implies #[trigger] line[j] != '$' && !(line[j] == ':'
        && peek(line, j) == Some(':')) by {
        assert(line[j] == name[j - 2]);
        if j + 1 < 2 + n {
            assert(line[j + 1] == name[j - 1]);
            assert(!(name[j - 2] == ':' && name[j - 2 + 1] == ':'));
        } else {
            assert(line[j + 1] == '$');
        }
    }
    lemma_scan_name(line, 2, n, s1);
    assert(line.subrange(2, 2 + n) =~= name);
    assert(Seq::<char>::empty() + name =~= name);
    let s2 = Scan { mode: Mode::Arg { name, default: None }, ..s0 };
    assert(line[2 + n] == '$');
    let s3 = close(s2);
    assert(scan_from(line, 2 + n, s2) == scan_from(line, 3 + n, s3));
    assert(scan_from(line, 3 + n, s3) == s3);
    let raw = finished_parts(end_of_line(s3));
    assert(raw =~= seq![RawPart::Text(Seq::empty()), RawPart::Arg(name)]);
    lemma_convert_two(raw, keys);
}

/// Converting two parts converts the first, then the second.
proof fn lemma_convert_two(raw: Seq<RawPart>, keys: Entries)
    requires
        raw.len() == 2,
        raw[0] is Text,
    ensures
        convert_parts(raw, keys) == match convert_part(raw[1], keys) {
            Ok(part) => Ok::<Seq<PartModel>, crate::error::ErrorModel>(
                seq![PartModel::Text(raw[0]->Text_0), part],
            ),
            Err(e) => Err(e),
        },
{
    let one = raw.drop_last();
    let none = one.drop_last();
    assert(convert_parts(none, keys) == Ok::<Seq<PartModel>, crate::error::ErrorModel>(
        Seq::empty(),
    ));
    assert(one.last() == raw[0]);
    assert(convert_parts(one, keys) == Ok::<Seq<PartModel>, crate::error::ErrorModel>(
        Seq::<PartModel>::empty().push(PartModel::Text(raw[0]->Text_0)),
    ));
    match convert_part(raw[1], keys) {
        Ok(part) => {
            assert(Seq::<PartModel>::empty().push(PartModel::Text(raw[0]->Text_0)).push(part)
                =~= seq![PartModel::Text(raw[0]->Text_0), part]);
        },
        Err(_) => {},
    }
}

/// Reading the literal form of a key combo gives the combo back: the line
/// `$!a+b$` is the one part that holds the keys of `a` and `b`, after an empty
/// text, with the registry untouched and nothing to report.
pub proof fn lemma_combo_round_trip(tokens: Seq<Seq<char>>, keys: Entries, defaults: Entries)
    requires
        plain_tokens(tokens),
        convert_keys(tokens, keys) is Ok,
    ensures
        parse_line(combo_literal(tokens), keys, defaults).parts == Ok::<
            Seq<PartModel>,
            crate::error::ErrorModel,
        >(
            seq![
                PartModel::Text(Seq::empty()),
                PartModel::KeyCombo(convert_keys(tokens, keys)->Ok_0),
            ],
        ),
        parse_line(combo_literal(tokens), keys, defaults).defaults == defaults,
        parse_line(combo_literal(tokens), keys, defaults).diagnostics == Seq::<
            crate::diagnostic::DiagnosticModel,
        >::empty(),
{
    let line = combo_literal(tokens);
    let m: int = join_tokens(tokens).len() as int;
    let s0 = start(defaults);
    let s1 = Scan { mode: Mode::KeyCombo { tokens: Seq::empty(), token: Seq::empty() }, ..s0 };
    assert(line[0] == '$' && line[1] == '!');
    assert(scan_from(line, 0, s0) == scan_from(line, 2, s1));
    assert(line[2 + m] == '$');
    let s2 = if tokens.len() == 0 {
        s1
    } else {
        Scan { mode: Mode::KeyCombo { tokens: tokens.drop_last(), token: tokens.last() }, ..s0 }
    };
    if tokens.len() > 0 {
        assert(line.subrange(2, 2 + m) =~= join_tokens(tokens));
        lemma_scan_tokens(line, 2, tokens, s1);
        assert(Seq::<Seq<char>>::empty() + tokens.drop_last() =~= tokens.drop_last());
        assert(plain_token(tokens[tokens.len() - 1]));
        assert(closed_tokens(tokens.drop_last(), tokens.last()) =~= tokens);
    } else {
        assert(closed_tokens(Seq::empty(), Seq::empty()) =~= tokens);
    }
    let s3 = close(s2);
    assert(scan_from(line, 2 + m, s2) == scan_from(line, 3 + m, s3));
    assert(scan_from(line, 3 + m, s3) == s3);
    let raw = finished_parts(end_of_line(s3));
    assert(raw =~= seq![RawPart::Text(Seq::empty()), RawPart::KeyCombo(tokens)]);
    lemma_convert_two(raw, keys);
}

/// A combo whose keys are written by names that stand for themselves reads
/// back as the same combo.
pub proof fn lemma_key_combo_round_trip(names: Seq<Seq<char>>, keys: Entries, defaults: Entries)
    requires
        plain_tokens(names),
        forall|i: int| 0 <= i < names.len() ==> lookup(keys, #[trigger] names[i]) == Some(names[i]),
    ensures
        parse_line(combo_literal(names), keys, defaults).parts == Ok::<
            Seq<PartModel>,
            crate::error::ErrorModel,
        >(seq![PartModel::Text(Seq::empty()), PartModel::KeyCombo(names)]),
{
    lemma_own_names_resolve(names, keys);
    lemma_combo_round_trip(names, keys, defaults);
}

/// The literal form of a reference that declares a default:
/// `$@name::default$`.
pub open spec fn arg_default_literal(name: Seq<char>, default: Seq<char>) -> Seq<char> {
    seq!['$', '@'] + name + seq![':', ':'] + default + seq!['$']
}

/// Reading the characters of a default adds them to the default.
proof fn lemma_scan_default(line: Seq<char>, i: int, k: int, s: Scan)
    requires
        s.mode matches Mode::Arg { name, default } && default is Some,
        !s.arglist,
        0 <= i,
        0 <= k,
        i + k <= line.len(),
        forall|j: int| i <= j < i + k ==> #[trigger] line[j] != '$',
    ensures
        scan_from(line, i, s) == scan_from(
            line,
            i + k,
            Scan {
                mode: Mode::Arg {
                    name: s.mode->Arg_name,
                    default: Some(s.mode->Arg_default->Some_0 + line.subrange(i, i + k)),
                },
                ..s
            },
        ),
    decreases k,
{
    let value = s.mode->Arg_default->Some_0;
    if k == 0 {
        assert(value + line.subrange(i, i) =~= value);
    } else {
        assert(line[i] != '$');
        let after = step(s, line[i], peek(line, i));
        lemma_scan_default(line, i + 1, k - 1, after);
        assert(value.push(line[i]) + line.subrange(i + 1, i + k) =~= value + line.subrange(
            i,
            i + k,
        ));
    }
}

/// Reading a reference that declares a default gives the reference and
/// registers the default: the line `$@name::default$` is the one part
/// `Arg(name)` after an empty text, and the registry holds `default` under
/// `name` afterwards.
pub proof fn lemma_arg_default_round_trip(
    name: Seq<char>,
    default: Seq<char>,
    keys: Entries,
    defaults: Entries,
)
    requires
        plain_name(name),
        name.last() != ':',
        forall|i: int| 0 <= i < default.len() ==> #[trigger] default[i] != '$',
    ensures
        parse_line(arg_default_literal(name, default), keys, defaults).parts == Ok::<
            Seq<PartModel>,
            crate::error::ErrorModel,
        >(seq![PartModel::Text(Seq::empty()), PartModel::Arg(name)]),
        parse_line(arg_default_literal(name, default), keys, defaults).defaults
            == crate::registry::upsert(defaults, name, default),
{
    let line = arg_default_literal(name, default);
    let n: int = name.len() as int;
    let d: int = default.len() as int;
    let s0 = start(defaults);
    let s1 = Scan { mode: Mode::Arg { name: Seq::empty(), default: None }, ..s0 };
    assert(line[0] == '$' && line[1] == '@');
    assert(scan_from(line, 0, s0) == scan_from(line, 2, s1));
    assert(line[2 + n] == ':' && line[3 + n] == ':');
    assert forall|j: int| 2 <= j < 2 + n implies #[trigger] line[j] != '$' && !(line[j] == ':'
        && peek(line, j) == Some(':')) by {
        assert(line[j] == name[j - 2]);
        if j + 1 < 2 + n {
            assert(line[j + 1] == name[j - 1]);
            assert(!(name[j - 2] == ':' && name[j - 2 + 1] == ':'));
        }
    }
    lemma_scan_name(line, 2, n, s1);
    assert(line.subrange(2, 2 + n) =~= name);
    assert(Seq::<char>::empty() + name =~= name);
    let s2 = Scan { mode: Mode::Arg { name, default: None }, ..s0 };
    let s3 = Scan { mode: Mode::Arg { name, default: Some(Seq::empty()) }, ..s0 };
    assert(scan_from(line, 2 + n, s2) == scan_from(line, 4 + n, s3));
    assert forall|j: int| 4 + n <= j < 4 + n + d implies #[trigger] line[j] != '$' by {
        assert(line[j] == default[j - 4 - n]);
    }
    lemma_scan_default(line, 4 + n, d, s3);
    assert(line.subrange(4 + n, 4 + n + d) =~= default);
    assert(Seq::<char>::empty() + default =~= default);
    let s4 = Scan { mode: Mode::Arg { name, default: Some(default) }, ..s0 };
    assert(line[4 + n + d] == '$');
    let s5 = close(s4);
    assert(scan_from(line, 4 + n + d, s4) == scan_from(line, 5 + n + d, s5));
    assert(scan_from(line, 5 + n + d, s5) == s5);
    let raw = finished_parts(end_of_line(s5));
    assert(raw =~= seq![RawPart::Text(Seq::empty()), RawPart::Arg(name)]);
    lemma_convert_two(raw, keys);
}

/// The literal form of a delay of `millis` milliseconds: `$'250$`.
pub open spec fn delay_literal(millis: u64) -> Seq<char> {
    seq!['$', '\''] + decimal(millis as nat) + seq!['$']
}

/// The literal form of a delay of `millis` milliseconds.
pub fn render_delay(millis: u64) -> (literal: String)
    ensures
        literal@ == delay_literal(millis),
{
    let mut literal = String::new();
    literal.push('$');
    literal.push('\'');
    crate::text::push_decimal(millis, &mut literal);
    literal.push('$');
    assert(literal@ =~= delay_literal(millis));
    literal
}

/// A number in decimal digits is digits only, and writes the number.
pub proof fn lemma_decimal_reads_back(n: nat)
    ensures
        decimal(n).len() > 0,
        all_digits(decimal(n)),
        decimal_value(decimal(n)) == n,
    decreases n,
{
    let digits = decimal(n);
    if n < 10 {
        assert(digits.drop_last() =~= Seq::<char>::empty());
        assert(decimal_value(digits.drop_last()) == 0);
    } else {
        lemma_decimal_reads_back(n / 10);
        let front = decimal(n / 10);
        assert(digits.drop_last() =~= front);
        assert forall|i: int| 0 <= i < digits.len() implies is_digit(#[trigger] digits[i]) by {
            if i < front.len() {
                assert(digits[i] == front[i]);
            }
        }
    }
}

/// Reading the characters of a delay adds them to its body.
proof fn lemma_scan_delay(line: Seq<char>, i: int, k: int, s: Scan)
    requires
        s.mode is Delay,
        !s.arglist,
        0 <= i,
        0 <= k,
        i + k <= line.len(),
        forall|j: int| i <= j < i + k ==> #[trigger] line[j] != '$',
    ensures
        scan_from(line, i, s) == scan_from(
            line,
            i + k,
            Scan { mode: Mode::Delay(s.mode->Delay_0 + line.subrange(i, i + k)), ..s },
        ),
    decreases k,
{
    let body = s.mode->Delay_0;
    if k == 0 {
        assert(body + line.subrange(i, i) =~= body);
    } else {
        assert(line[i] != '$');
        let after = step(s, line[i], peek(line, i));
        lemma_scan_delay(line, i + 1, k - 1, after);
        assert(body.push(line[i]) + line.subrange(i + 1, i + k) =~= body + line.subrange(
            i,
            i + k,
        ));
    }
}

/// Reading the literal form of a delay gives the delay back: the line
/// `$'250$` is the one part `Delay(250)` after an empty text.
pub proof fn lemma_delay_round_trip(millis: u64, keys: Entries, defaults: Entries)
    ensures
        parse_line(delay_literal(millis), keys, defaults).parts == Ok::<
            Seq<PartModel>,
            crate::error::ErrorModel,
        >(seq![PartModel::Text(Seq::empty()), PartModel::Delay(millis)]),
        parse_line(delay_literal(millis), keys, defaults).defaults == defaults,
        parse_line(delay_literal(millis), keys, defaults).diagnostics == Seq::<
            crate::diagnostic::DiagnosticModel,
        >::empty(),
{
    let digits = decimal(millis as nat);
    lemma_decimal_reads_back(millis as nat);
    let line = delay_literal(millis);
    let n: int = digits.len() as int;
    let s0 = start(defaults);
    let s1 = Scan { mode: Mode::Delay(Seq::empty()), ..s0 };
    assert(line[0] == '$' && line[1] == '\'');
    assert(scan_from(line, 0, s0) == scan_from(line, 2, s1));
    assert forall|j: int| 2 <= j < 2 + n implies #[trigger] line[j] != '$' by {
        assert(line[j] == digits[j - 2]);
        assert(is_digit(digits[j - 2]));
    }
    lemma_scan_delay(line, 2, n, s1);
    assert(line.subrange(2, 2 + n) =~= digits);
    assert(Seq::<char>::empty() + digits =~= digits);
    let s2 = Scan { mode: Mode::Delay(digits), ..s0 };
    assert(line[2 + n] == '$');
    let s3 = close(s2);
    assert(scan_from(line, 2 + n, s2) == scan_from(line, 3 + n, s3));
    assert(scan_from(line, 3 + n, s3) == s3);
    let raw = finished_parts(end_of_line(s3));
    assert(raw =~= seq![RawPart::Text(Seq::empty()), RawPart::Delay(digits)]);
    assert(is_digit(digits[0]));
    assert(unsigned_digits(digits) == digits);
    assert(parse_delay(digits) == Some(millis));
    lemma_convert_two(raw, keys);
}

/// Whether `ch` after a `$` opens a part.
pub open spec fn is_opener_mark(ch: char) -> bool {
    ch == '\'' || ch == '@' || ch == '[' || ch == '!'
}

/// Text that can stand for itself: no `$` in it is followed by a character
/// that would open a part.
pub open spec fn plain_text(text: Seq<char>) -> bool {
    forall|i: int|
        0 <= i < text.len() - 1 ==> !(#[trigger] text[i] == '$' && is_opener_mark(text[i + 1]))
}

/// Reading plain characters adds them to the text.
proof fn lemma_scan_text(line: Seq<char>, i: int, s: Scan)
    requires
        s.mode is Text,
        !s.arglist,
        0 <= i <= line.len(),
        plain_text(line),
    ensures
        scan_from(line, i, s) == (Scan { text: s.text + line.subrange(i, line.len() as int), ..s }),
    decreases line.len() - i,
{
    if i == line.len() {
        assert(s.text + line.subrange(i, line.len() as int) =~= s.text);
    } else {
        if i + 1 < line.len() {
            assert(!(line[i] == '$' && is_opener_mark(line[i + 1])));
        }
        let after = step(s, line[i], peek(line, i));
        assert(after == Scan { text: s.text.push(line[i]), ..s });
        lemma_scan_text(line, i + 1, after);
        assert(s.text.push(line[i]) + line.subrange(i + 1, line.len() as int) =~= s.text
            + line.subrange(i, line.len() as int));
    }
}

/// A line of plain text is one text part that holds the line; an empty line
/// has no part.
pub proof fn lemma_plain_text_line(line: Seq<char>, keys: Entries, defaults: Entries)
    requires
        plain_text(line),
    ensures
        parse_line(line, keys, defaults).parts == Ok::<Seq<PartModel>, crate::error::ErrorModel>(
            if line.len() == 0 {
                Seq::empty()
            } else {
                seq![PartModel::Text(line)]
            },
        ),
        parse_line(line, keys, defaults).defaults == defaults,
        parse_line(line, keys, defaults).diagnostics == Seq::<
            crate::diagnostic::DiagnosticModel,
        >::empty(),
{
    let s0 = start(defaults);
    lemma_scan_text(line, 0, s0);
    assert(Seq::<char>::empty() + line.subrange(0, line.len() as int) =~= line);
    let read = Scan { text: line, ..s0 };
    let raw = finished_parts(end_of_line(read));
    if line.len() > 0 {
        assert(raw =~= seq![RawPart::Text(line)]);
        assert(raw.drop_last() =~= Seq::<RawPart>::empty());
        assert(convert_parts(raw.drop_last(), keys) == Ok::<
            Seq<PartModel>,
            crate::error::ErrorModel,
        >(Seq::empty()));
        assert(Seq::<PartModel>::empty().push(PartModel::Text(line)) =~= seq![
            PartModel::Text(line),
        ]);
    } else {
        assert(raw =~= Seq::<RawPart>::empty());
    }
}

} // verus!
