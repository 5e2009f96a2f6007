//! JSON text: string escapes, members, objects and arrays.
use vstd::prelude::*;

use crate::text::{chars_of, decimal, join, push_decimal};

verus! {

/// The lower-case hexadecimal digit of `d`.
pub open spec fn hex_digit(d: nat) -> char {
    if d < 10 {
        (0x30 + d) as char
    } else {
        (0x61 + d - 10) as char
    }
}

/// One character as it stands inside a JSON string.
pub open spec fn escaped_char(c: char) -> Seq<char> {
    if c == '"' {
        seq!['\\', '"']
    } else if c == '\\' {
        seq!['\\', '\\']
    } else if c == '\n' {
        seq!['\\', 'n']
    } else if c == '\r' {
        seq!['\\', 'r']
    } else if c == '\t' {
        seq!['\\', 't']
    } else if (c as u32) < 0x20 {
        seq!['\\', 'u', '0', '0', hex_digit(c as u32 as nat / 16), hex_digit(c as u32 as nat % 16)]
    } else {
        seq![c]
    }
}

/// Text as it stands inside a JSON string.
pub open spec fn escaped(s: Seq<char>) -> Seq<char>
    decreases s.len(),
{
    if s.len() == 0 {
        Seq::empty()
    } else {
        escaped_char(s[0]) + escaped(s.skip(1))
    }
}

/// The value of a hexadecimal digit in either case.
pub open spec fn hex_value(c: char) -> Option<nat> {
    if '0' <= c <= '9' {
        Some((c as u32 - 0x30) as nat)
    } else if 'a' <= c <= 'f' {
        Some((c as u32 - 0x61 + 10) as nat)
    } else if 'A' <= c <= 'F' {
        Some((c as u32 - 0x41 + 10) as nat)
    } else {
        None
    }
}

/// The character that a `\uXXXX` escape stands for, given its four digits; none
/// for half of a surrogate pair.
pub open spec fn escape_value(a: char, b: char, c: char, d: char) -> Option<char> {
    match (hex_value(a), hex_value(b), hex_value(c), hex_value(d)) {
        (Some(a), Some(b), Some(c), Some(d)) => {
            let n = ((a * 16 + b) * 16 + c) * 16 + d;
            if n < 0xd800 || n >= 0xe000 {
                Some(n as char)
            } else {
                None
            }
        },
        _ => None,
    }
}

/// The character that a two-character escape stands for, given its second
/// character.
pub open spec fn short_escape_value(c: char) -> Option<char> {
    if c == '"' || c == '\\' || c == '/' {
        Some(c)
    } else if c == 'b' {
        Some('\u{8}')
    } else if c == 'f' {
        Some('\u{c}')
    } else if c == 'n' {
        Some('\n')
    } else if c == 'r' {
        Some('\r')
    } else if c == 't' {
        Some('\t')
    } else {
        None
    }
}

/// The text that the inside of a JSON string stands for; none where the inside
/// of a JSON string cannot look like this.
pub open spec fn unescaped(s: Seq<char>) -> Option<Seq<char>>
    decreases s.len(),
{
    if s.len() == 0 {
        Some(Seq::empty())
    } else if s[0] == '\\' {
        if s.len() < 2 {
            None
        } else if s[1] == 'u' {
            if s.len() < 6 {
                None
            } else {
                prepend(escape_value(s[2], s[3], s[4], s[5]), unescaped(s.skip(6)))
            }
        } else {
            prepend(short_escape_value(s[1]), unescaped(s.skip(2)))
        }
    } else if s[0] == '"' || (s[0] as u32) < 0x20 {
        None
    } else {
        prepend(Some(s[0]), unescaped(s.skip(1)))
    }
}

/// `first` before `rest`, where there are both.
pub open spec fn prepend(first: Option<char>, rest: Option<Seq<char>>) -> Option<Seq<char>> {
    match (first, rest) {
        (Some(c), Some(t)) => Some(seq![c] + t),
        _ => None,
    }
}

/// The JSON string of a text.
pub open spec fn json_string(s: Seq<char>) -> Seq<char> {
    seq!['"'] + escaped(s) + seq!['"']
}

/// A member of a JSON object: its name, and the JSON text of its value.
pub open spec fn json_member(name: Seq<char>, value: Seq<char>) -> Seq<char> {
    json_string(name) + seq![':'] + value
}

/// The JSON object with the given members.
pub open spec fn json_object(members: Seq<Seq<char>>) -> Seq<char> {
    seq!['{'] + join(members, ',') + seq!['}']
}

/// The JSON array of the given values.
pub open spec fn json_array(values: Seq<Seq<char>>) -> Seq<char> {
    seq!['['] + join(values, ',') + seq![']']
}

/// Whether a byte cannot stand for itself inside a JSON string.
pub fn needs_escape(byte: u8) -> (res: bool)
    ensures
        res == (byte == 0x22 || byte == 0x5c || byte < 0x20),
{
    byte == 0x22 || byte == 0x5c || byte < 0x20
}

/// Whether a character cannot stand for itself inside a JSON string.
pub open spec fn special(c: char) -> bool {
    c == '"' || c == '\\' || (c as u32) < 0x20
}

/// Whether `c` cannot stand for itself inside a JSON string.
fn is_special(c: char) -> (res: bool)
    ensures
        res == special(c),
{
    let n: u32 = c as u32;
    n < 0x80 && needs_escape(n as u8)
}

/// Appends the hexadecimal digit of `d`.
fn push_hex_digit(out: &mut String, d: u8)
    requires
        d < 16,
    ensures
        final(out)@ == old(out)@.push(hex_digit(d as nat)),
{
    if d < 10 {
        out.push((0x30 + d) as char);
    } else {
        out.push((0x61 + (d - 10)) as char);
    }
}

/// Text without special characters is not changed by escaping: without quotes,
/// backslashes and control characters.
pub proof fn plain_text_stands_for_itself(s: Seq<char>)
    requires
        forall|i: int| 0 <= i < s.len() ==> !special(#[trigger] s[i]),
    ensures
        escaped(s) == s,
    decreases s.len(),
{
    if s.len() > 0 {
        assert(!special(s[0]));
        plain_text_stands_for_itself(s.skip(1));
        assert(seq![s[0]] + s.skip(1) =~= s);
    }
}

/// Appends `value` as it stands inside a JSON string.
pub fn escape_json_into(out: &mut String, value: &str)
    ensures
        final(out)@ == old(out)@ + escaped(value@),
{
    let chars = chars_of(value);
    let mut i: usize = 0;
    while i < chars.len() && !is_special(chars[i])
        invariant
            i <= chars.len(),
            chars@ == value@,
            forall|k: int| 0 <= k < i ==> !special(#[trigger] chars@[k]),
        decreases chars.len() - i,
    {
        i += 1;
    }
    if i == chars.len() {
        proof {
            plain_text_stands_for_itself(value@);
        }
        out.append(value);
        return ;
    }
    i = 0;
    assert(value@.skip(0) =~= value@);
    assert(out@ + escaped(value@.skip(0)) =~= old(out)@ + escaped(value@));
    while i < chars.len()
        invariant
            i <= chars.len(),
            chars@ == value@,
            out@ + escaped(value@.skip(i as int)) == old(out)@ + escaped(value@),
        decreases chars.len() - i,
    {
        let c = chars[i];
        let ghost before = out@;
        let ghost rest = value@.skip(i as int);
        assert(rest.skip(1) =~= value@.skip(i + 1));
        if c == '"' {
            out.push('\\');
            out.push('"');
        } else if c == '\\' {
            out.push('\\');
            out.push('\\');
        } else if c == '\n' {
            out.push('\\');
            out.push('n');
        } else if c == '\r' {
            out.push('\\');
            out.push('r');
        } else if c == '\t' {
            out.push('\\');
            out.push('t');
        } else if (c as u32) < 0x20 {
            let n: u8 = (c as u32) as u8;
            out.push('\\');
            out.push('u');
            out.push('0');
            out.push('0');
            push_hex_digit(out, n / 16);
            push_hex_digit(out, n % 16);
        } else {
            out.push(c);
        }
        proof {
            assert(out@ =~= before + escaped_char(c));
            assert(out@ + escaped(rest.skip(1)) =~= before + escaped(rest));
        }
        i += 1;
    }
    assert(value@.skip(i as int) =~= Seq::<char>::empty());
    assert(out@ + Seq::<char>::empty() =~= out@);
}

/// Appends the JSON string of `value`.
pub fn push_json_string(out: &mut String, value: &str)
    ensures
        final(out)@ == old(out)@ + json_string(value@),
{
    out.push('"');
    escape_json_into(out, value);
    out.push('"');
    assert(out@ =~= old(out)@ + json_string(value@));
}

/// The JSON text of an object, member by member.
pub struct ObjectText {
    text: String,
    started: bool,
    members: Ghost<Seq<Seq<char>>>,
}

impl ObjectText {
    /// The members so far.
    pub closed spec fn members(&self) -> Seq<Seq<char>> {
        self.members@
    }

    pub closed spec fn wf(&self) -> bool {
        &&& self.text@ == seq!['{'] + join(self.members@, ',')
        &&& self.started == (self.members@.len() > 0)
    }

    /// An object without members.
    pub fn new() -> (res: Self)
        ensures
            res.wf(),
            res.members() == Seq::<Seq<char>>::empty(),
    {
        let mut text = String::new();
        text.push('{');
        assert(text@ =~= seq!['{'] + join(Seq::<Seq<char>>::empty(), ','));
        ObjectText { text, started: false, members: Ghost(Seq::empty()) }
    }

    /// Adds a member whose value is the JSON text `value`.
    pub fn add_value(&mut self, name: &str, value: &str)
        requires
            old(self).wf(),
        ensures
            final(self).wf(),
            final(self).members() == old(self).members().push(json_member(name@, value@)),
    {
        if self.started {
            self.text.push(',');
        }
        self.started = true;
        push_json_string(&mut self.text, name);
        self.text.push(':');
        self.text.append(value);
        proof {
            let before = self.members@;
            let member = json_member(name@, value@);
            let after = before.push(member);
            assert(after.drop_last() =~= before);
            self.members@ = after;
            assert(self.text@ =~= seq!['{'] + join(after, ','));
        }
    }

    /// Adds a member whose value is a string.
    pub fn add_text(&mut self, name: &str, value: &str)
        requires
            old(self).wf(),
        ensures
            final(self).wf(),
            final(self).members() == old(self).members().push(
                json_member(name@, json_string(value@)),
            ),
    {
        let mut text = String::new();
        push_json_string(&mut text, value);
        assert(text@ =~= json_string(value@));
        self.add_value(name, text.as_str());
    }

    /// Adds a member whose value is a number.
    pub fn add_number(&mut self, name: &str, value: u64)
        requires
            old(self).wf(),
        ensures
            final(self).wf(),
            final(self).members() == old(self).members().push(
                json_member(name@, decimal(value as nat)),
            ),
    {
        let mut text = String::new();
        push_decimal(&mut text, value);
        assert(text@ =~= decimal(value as nat));
        self.add_value(name, text.as_str());
    }

    /// The text of the object.
    pub fn finish(self) -> (text: String)
        requires
            self.wf(),
        ensures
            text@ == json_object(self.members()),
    {
        let mut text = self.text;
        text.push('}');
        assert(text@ =~= json_object(self.members()));
        text
    }
}

/// Whether `s` is a JSON string.
pub open spec fn is_json_string(s: Seq<char>) -> bool {
    &&& s.len() >= 2
    &&& s[0] == '"'
    &&& s.last() == '"'
    &&& unescaped(s.subrange(1, s.len() - 1)) is Some
}

/// Whether `s` is a JSON number without sign, fraction and exponent.
pub open spec fn is_json_natural(s: Seq<char>) -> bool {
    &&& s.len() > 0
    &&& forall|i: int| 0 <= i < s.len() ==> '0' <= #[trigger] s[i] <= '9'
    &&& s[0] == '0' ==> s.len() == 1
}

/// Whether `s` is a member of a JSON object whose value is nested at most
/// `depth` deep.
#[verifier::opaque]
pub open spec fn is_json_member(s: Seq<char>, depth: nat) -> bool
    decreases depth, 1nat,
{
    exists|name: Seq<char>, value: Seq<char>|
        is_json_string(name) && is_json(value, depth) && s == #[trigger] (name + seq![':'] + value)
}

/// Whether `s` is JSON, of strings, numbers, arrays and objects nested at most
/// `depth` deep.
#[verifier::opaque]
pub open spec fn is_json(s: Seq<char>, depth: nat) -> bool
    decreases depth, 0nat,
{
    ||| is_json_string(s)
    ||| is_json_natural(s)
    ||| depth > 0 && exists|values: Seq<Seq<char>>|
        s == #[trigger] json_array(values) && forall|i: int|
            0 <= i < values.len() ==> is_json(#[trigger] values[i], (depth - 1) as nat)
    ||| depth > 0 && exists|members: Seq<Seq<char>>|
        s == #[trigger] json_object(members) && forall|i: int|
            0 <= i < members.len() ==> is_json_member(#[trigger] members[i], (depth - 1) as nat)
}

/// Escaping loses nothing: the inside of a JSON string that was written for a
/// text stands for that text.
pub proof fn unescape_undoes_escape(s: Seq<char>)
    ensures
        unescaped(escaped(s)) == Some(s),
    decreases s.len(),
{
    if s.len() > 0 {
        let c = s[0];
        let rest = s.skip(1);
        unescape_undoes_escape(rest);
        let head = escaped_char(c);
        let whole = head + escaped(rest);
        assert(seq![c] + rest =~= s);
        if special(c) {
            if c == '"' || c == '\\' || c == '\n' || c == '\r' || c == '\t' {
                assert(whole.skip(2) =~= escaped(rest));
            } else {
                assert(whole.skip(6) =~= escaped(rest));
                lemma_control_char(c);
            }
        } else {
            assert(whole.skip(1) =~= escaped(rest));
        }
    }
}

/// The four digits written for a control character stand for it.
proof fn lemma_control_char(c: char)
    requires
        (c as u32) < 0x20,
    ensures
        escape_value(
            '0',
            '0',
            hex_digit(c as u32 as nat / 16),
            hex_digit(c as u32 as nat % 16),
        ) == Some(c),
{
    let n = c as u32 as nat;
    assert(hex_value('0') == Some(0nat));
    assert(hex_value(hex_digit(n / 16)) == Some(n / 16));
    assert(hex_value(hex_digit(n % 16)) == Some(n % 16));
    assert(((0 * 16 + 0) * 16 + n / 16) * 16 + n % 16 == n);
    assert(n as char == c);
}

/// Escaped text holds no quote that would end the string before its time, and no
/// control character: the JSON string of every text is one.
pub proof fn json_string_is_json(s: Seq<char>)
    ensures
        is_json_string(json_string(s)),
{
    unescape_undoes_escape(s);
    let text = json_string(s);
    assert(text.subrange(1, text.len() - 1) =~= escaped(s));
}

/// Different texts have different JSON strings.
pub proof fn json_strings_differ(a: Seq<char>, b: Seq<char>)
    requires
        json_string(a) == json_string(b),
    ensures
        a == b,
{
    unescape_undoes_escape(a);
    unescape_undoes_escape(b);
    let text = json_string(a);
    assert(text.subrange(1, text.len() - 1) =~= escaped(a));
    assert(json_string(b).subrange(1, text.len() - 1) =~= escaped(b));
}

/// A decimal numeral is a JSON number.
pub proof fn decimal_is_json(n: nat)
    ensures
        is_json_natural(decimal(n)),
        n > 0 ==> decimal(n)[0] != '0',
    decreases n,
{
    if n >= 10 {
        decimal_is_json(n / 10);
    }
}

/// The JSON string of a text and the numeral of a number are JSON.
pub proof fn flat_values_are_json(text: Seq<char>, number: nat, depth: nat)
    ensures
        is_json(json_string(text), depth),
        is_json(decimal(number), depth),
{
    reveal_with_fuel(is_json, 2);
    reveal_with_fuel(is_json_member, 2);
    json_string_is_json(text);
    decimal_is_json(number);
}

/// A name and a JSON value make a member.
pub proof fn member_is_json(name: Seq<char>, value: Seq<char>, depth: nat)
    requires
        is_json(value, depth),
    ensures
        is_json_member(json_member(name, value), depth),
{
    reveal_with_fuel(is_json_member, 2);
    reveal_with_fuel(is_json, 2);
    json_string_is_json(name);
    assert(json_member(name, value) == json_string(name) + seq![':'] + value);
}

/// Members make an object.
pub proof fn object_is_json(members: Seq<Seq<char>>, depth: nat)
    requires
        forall|i: int| 0 <= i < members.len() ==> is_json_member(#[trigger] members[i], depth),
    ensures
        is_json(json_object(members), depth + 1),
{
    reveal_with_fuel(is_json, 2);
    reveal_with_fuel(is_json_member, 2);
}

/// JSON values make an array.
pub proof fn array_is_json(values: Seq<Seq<char>>, depth: nat)
    requires
        forall|i: int| 0 <= i < values.len() ==> is_json(#[trigger] values[i], depth),
    ensures
        is_json(json_array(values), depth + 1),
{
    reveal_with_fuel(is_json, 2);
    reveal_with_fuel(is_json_member, 2);
}

/// What is written for a character: a backslash and a character for those that have
/// such an escape, `\u00` and two digits for the other control characters, and the
/// character itself for every other one. Texts are written character by character.
pub proof fn escapes_are_spelled_out(c: char, s: Seq<char>)
    ensures
        escaped(seq!['"']) == seq!['\\', '"'],
        escaped(seq!['\\']) == seq!['\\', '\\'],
        escaped(seq!['\n']) == seq!['\\', 'n'],
        escaped(seq!['\r']) == seq!['\\', 'r'],
        escaped(seq!['\t']) == seq!['\\', 't'],
        (c as u32) < 0x20 && c != '\n' && c != '\r' && c != '\t' ==> {
            let text = escaped(seq![c]);
            &&& text.len() == 6
            &&& text.take(4) == seq!['\\', 'u', '0', '0']
            &&& text[4] == if (c as u32) < 0x10 {
                '0'
            } else {
                '1'
            }
            &&& hex_value(text[5]) == Some(c as u32 as nat % 16)
            &&& !('A' <= text[5] <= 'F')
        },
        (c as u32) >= 0x20 && c != '"' && c != '\\' ==> escaped(seq![c]) == seq![c],
        escaped(seq![c] + s) == escaped(seq![c]) + escaped(s),
        escaped(Seq::<char>::empty()) == Seq::<char>::empty(),
{
    reveal_with_fuel(escaped, 2);
    assert forall|d: char| #[trigger] escaped(seq![d]) == escaped_char(d) by {
        assert(seq![d].skip(1) =~= Seq::<char>::empty());
        assert(escaped_char(d) + Seq::<char>::empty() =~= escaped_char(d));
    }
    assert((seq![c] + s).skip(1) =~= s);
    if (c as u32) < 0x20 && c != '\n' && c != '\r' && c != '\t' {
        let text = escaped(seq![c]);
        assert(text == escaped_char(c));
        assert(text.take(4) =~= seq!['\\', 'u', '0', '0']);
    }
}

/// How values are put together: strings in quotes, members as name, colon and value,
/// objects in braces and arrays in brackets, each with commas between.
pub proof fn json_is_spelled_out(name: Seq<char>, value: Seq<char>, parts: Seq<Seq<char>>)
    ensures
        json_string(value) == seq!['"'] + escaped(value) + seq!['"'],
        json_member(name, value) == seq!['"'] + escaped(name) + seq!['"', ':'] + value,
        json_object(parts) == seq!['{'] + join(parts, ',') + seq!['}'],
        json_array(parts) == seq!['['] + join(parts, ',') + seq![']'],
{
    assert(json_member(name, value) =~= seq!['"'] + escaped(name) + seq!['"', ':'] + value);
}

} // verus!
