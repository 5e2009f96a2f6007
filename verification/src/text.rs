//! Text as sequences of characters: splitting, joining, trimming, prefixes and
//! decimal numerals.
use vstd::prelude::*;

verus! {

/// `String::push` of std: appends one character to the end.
pub assume_specification[ String::push ](s: &mut String, c: char)
    ensures
        final(s)@ == old(s)@.push(c),
;

/// The pieces of `s` between the occurrences of `sep`; always at least one.
pub open spec fn split(s: Seq<char>, sep: char) -> Seq<Seq<char>>
    decreases s.len(),
{
    if s.len() == 0 {
        seq![Seq::<char>::empty()]
    } else {
        let before = split(s.drop_last(), sep);
        if s.last() == sep {
            before.push(Seq::<char>::empty())
        } else {
            before.drop_last().push(before.last().push(s.last()))
        }
    }
}

/// `parts` written one after the other, with `sep` between neighbours.
pub open spec fn join(parts: Seq<Seq<char>>, sep: char) -> Seq<char>
    decreases parts.len(),
{
    if parts.len() == 0 {
        Seq::empty()
    } else if parts.len() == 1 {
        parts[0]
    } else {
        join(parts.drop_last(), sep).push(sep) + parts.last()
    }
}

/// The texts that a list of strings holds.
pub open spec fn texts(list: Seq<String>) -> Seq<Seq<char>> {
    list.map_values(|s: String| s@)
}

/// The characters with the Unicode property `White_Space`.
pub open spec fn white_space(c: char) -> bool {
    let n = c as u32;
    ||| 0x09 <= n <= 0x0d
    ||| n == 0x20
    ||| n == 0x85
    ||| n == 0xa0
    ||| n == 0x1680
    ||| 0x2000 <= n <= 0x200a
    ||| n == 0x2028
    ||| n == 0x2029
    ||| n == 0x202f
    ||| n == 0x205f
    ||| n == 0x3000
}

/// `s` without its leading white space.
pub open spec fn trim_start(s: Seq<char>) -> Seq<char>
    decreases s.len(),
{
    if s.len() > 0 && white_space(s[0]) {
        trim_start(s.skip(1))
    } else {
        s
    }
}

/// `s` without its trailing white space.
pub open spec fn trim_end(s: Seq<char>) -> Seq<char>
    decreases s.len(),
{
    if s.len() > 0 && white_space(s.last()) {
        trim_end(s.drop_last())
    } else {
        s
    }
}

/// `s` without its leading and trailing white space.
pub open spec fn trimmed(s: Seq<char>) -> Seq<char> {
    trim_end(trim_start(s))
}

/// The character of the decimal digit `d`.
pub open spec fn digit(d: nat) -> char {
    (0x30 + d) as char
}

/// The decimal numeral of `n`, without leading zeros.
pub open spec fn decimal(n: nat) -> Seq<char>
    decreases n,
{
    if n < 10 {
        seq![digit(n)]
    } else {
        decimal(n / 10).push(digit(n % 10))
    }
}

/// The characters of `s`, in order.
pub fn chars_of(s: &str) -> (chars: Vec<char>)
    ensures
        chars@ == s@,
{
    let mut chars: Vec<char> = Vec::new();
    for c in it: s.chars()
        invariant
            chars@ == it.seq().take(it.index() as int),
            it.seq() == s@,
    {
        chars.push(c);
    }
    chars
}

/// The characters of `chars` from position `from` up to, not including, `to`.
pub fn text_between(chars: &Vec<char>, from: usize, to: usize) -> (text: String)
    requires
        from <= to <= chars@.len(),
    ensures
        text@ == chars@.subrange(from as int, to as int),
{
    let mut text = String::new();
    let mut i: usize = from;
    while i < to
        invariant
            from <= i <= to <= chars@.len(),
            text@ == chars@.subrange(from as int, i as int),
        decreases to - i,
    {
        text.push(chars[i]);
        i += 1;
    }
    text
}

/// Whether `a` and `b` hold the same characters.
pub fn same_text(a: &str, b: &str) -> (same: bool)
    ensures
        same == (a@ == b@),
{
    let left = chars_of(a);
    let right = chars_of(b);
    if left.len() != right.len() {
        return false;
    }
    let mut i: usize = 0;
    while i < left.len()
        invariant
            i <= left.len(),
            left.len() == right.len(),
            left@ == a@,
            right@ == b@,
            left@.take(i as int) == right@.take(i as int),
        decreases left.len() - i,
    {
        if left[i] != right[i] {
            assert(a@[i as int] != b@[i as int]);
            return false;
        }
        i += 1;
        assert(left@.take(i as int) =~= left@.take(i - 1).push(left@[i - 1]));
        assert(right@.take(i as int) =~= right@.take(i - 1).push(right@[i - 1]));
    }
    assert(left@.take(i as int) =~= a@);
    assert(right@.take(i as int) =~= b@);
    true
}

/// Whether `s` begins with `prefix`.
pub fn starts_with(s: &str, prefix: &str) -> (starts: bool)
    ensures
        starts == prefix@.is_prefix_of(s@),
{
    let text = chars_of(s);
    let head = chars_of(prefix);
    if head.len() > text.len() {
        return false;
    }
    let mut i: usize = 0;
    while i < head.len()
        invariant
            i <= head.len() <= text.len(),
            text@ == s@,
            head@ == prefix@,
            forall|k: int| 0 <= k < i ==> head@[k] == text@[k],
        decreases head.len() - i,
    {
        if text[i] != head[i] {
            assert(prefix@.is_prefix_of(s@) ==> s@.subrange(0, prefix@.len() as int)[i as int]
                == prefix@[i as int]);
            return false;
        }
        i += 1;
    }
    assert(s@.subrange(0, prefix@.len() as int) =~= prefix@);
    true
}

/// Whether `c` occurs in `s`.
pub fn contains_char(s: &str, c: char) -> (found: bool)
    ensures
        found == s@.contains(c),
{
    let text = chars_of(s);
    let mut i: usize = 0;
    while i < text.len()
        invariant
            i <= text.len(),
            text@ == s@,
            forall|k: int| 0 <= k < i ==> text@[k] != c,
        decreases text.len() - i,
    {
        if text[i] == c {
            assert(s@[i as int] == c);
            return true;
        }
        i += 1;
    }
    false
}

/// Whether `c` has the Unicode property `White_Space`.
pub fn is_white_space(c: char) -> (res: bool)
    ensures
        res == white_space(c),
{
    let n: u32 = c as u32;
    (0x09 <= n && n <= 0x0d) || n == 0x20 || n == 0x85 || n == 0xa0 || n == 0x1680 || (0x2000 <= n
        && n <= 0x200a) || n == 0x2028 || n == 0x2029 || n == 0x202f || n == 0x205f || n == 0x3000
}

/// `s` without its leading and trailing white space.
pub fn trim(s: &str) -> (text: String)
    ensures
        text@ == trimmed(s@),
{
    let chars = chars_of(s);
    let mut from: usize = 0;
    assert(s@.skip(0) =~= s@);
    while from < chars.len() && is_white_space(chars[from])
        invariant
            from <= chars.len(),
            chars@ == s@,
            trim_start(s@) == trim_start(s@.skip(from as int)),
        decreases chars.len() - from,
    {
        assert(s@.skip(from as int).skip(1) =~= s@.skip(from + 1));
        from += 1;
    }
    let ghost rest = s@.skip(from as int);
    assert(trim_start(s@) == rest);
    let mut to: usize = chars.len();
    assert(s@.subrange(from as int, to as int) =~= rest);
    while from < to && is_white_space(chars[to - 1])
        invariant
            from <= to <= chars.len(),
            chars@ == s@,
            trim_end(rest) == trim_end(s@.subrange(from as int, to as int)),
        decreases to - from,
    {
        assert(s@.subrange(from as int, to as int).drop_last() =~= s@.subrange(
            from as int,
            to - 1,
        ));
        to -= 1;
    }
    text_between(&chars, from, to)
}

/// The pieces of `s` between the occurrences of `sep`.
pub fn split_text(s: &str, sep: char) -> (parts: Vec<String>)
    ensures
        texts(parts@) == split(s@, sep),
{
    let chars = chars_of(s);
    let mut parts: Vec<String> = Vec::new();
    let mut current = String::new();
    let mut i: usize = 0;
    while i < chars.len()
        invariant
            i <= chars.len(),
            chars@ == s@,
            texts(parts@).push(current@) == split(s@.take(i as int), sep),
        decreases chars.len() - i,
    {
        let c = chars[i];
        let ghost seen = s@.take(i + 1);
        assert(seen.drop_last() =~= s@.take(i as int));
        let ghost before = texts(parts@).push(current@);
        assert(before.drop_last() =~= texts(parts@));
        if c == sep {
            let ghost old_parts = parts@;
            let ghost piece = current@;
            parts.push(current);
            current = String::new();
            assert(texts(parts@) =~= texts(old_parts).push(piece));
        } else {
            current.push(c);
        }
        i += 1;
    }
    let ghost old_parts = parts@;
    let ghost piece = current@;
    parts.push(current);
    proof {
        assert(s@.take(i as int) =~= s@);
        assert(texts(parts@) =~= texts(old_parts).push(piece));
    }
    parts
}

/// The strings of `parts` one after the other, with `sep` between neighbours.
pub fn join_texts(parts: &Vec<String>, sep: char) -> (text: String)
    ensures
        text@ == join(texts(parts@), sep),
{
    let mut text = String::new();
    let mut i: usize = 0;
    while i < parts.len()
        invariant
            i <= parts.len(),
            text@ == join(texts(parts@).take(i as int), sep),
        decreases parts.len() - i,
    {
        let ghost upto = texts(parts@).take(i + 1);
        assert(upto.drop_last() =~= texts(parts@).take(i as int));
        if i > 0 {
            text.push(sep);
        }
        text.append(parts[i].as_str());
        proof {
            if i == 0 {
                assert(text@ =~= upto[0]);
            }
        }
        i += 1;
    }
    assert(texts(parts@).take(i as int) =~= texts(parts@));
    text
}

/// Appends the decimal numeral of `n`.
pub fn push_decimal(out: &mut String, n: u64)
    ensures
        final(out)@ == old(out)@ + decimal(n as nat),
    decreases n,
{
    if n >= 10 {
        push_decimal(out, n / 10);
    }
    let d: u8 = (n % 10) as u8;
    out.push((0x30 + d) as char);
    proof {
        assert(((0x30 + d) as char) == digit(n as nat % 10));
        if n < 10 {
            assert(decimal(n as nat) =~= seq![digit(n as nat)]);
        }
        assert(out@ =~= old(out)@ + decimal(n as nat));
    }
}

/// The decimal numeral of `n`.
pub fn decimal_text(n: u64) -> (text: String)
    ensures
        text@ == decimal(n as nat),
{
    let mut text = String::new();
    push_decimal(&mut text, n);
    assert(text@ =~= decimal(n as nat));
    text
}

/// A string split at `sep` has at least one piece, no piece holds `sep`, and
/// joining the pieces with `sep` gives the string back.
pub proof fn split_then_join(s: Seq<char>, sep: char)
    ensures
        split(s, sep).len() >= 1,
        forall|i: int| 0 <= i < split(s, sep).len() ==> !(#[trigger] split(s, sep)[i]).contains(sep),
        join(split(s, sep), sep) == s,
    decreases s.len(),
{
    let parts = split(s, sep);
    if s.len() == 0 {
        assert(join(parts, sep) =~= s);
    } else {
        let before = split(s.drop_last(), sep);
        split_then_join(s.drop_last(), sep);
        if s.last() == sep {
            assert(parts.drop_last() =~= before);
            assert(join(parts, sep) =~= s);
        } else {
            let grown = before.last().push(s.last());
            assert(parts.drop_last() =~= before.drop_last());
            assert forall|i: int| 0 <= i < parts.len() implies !(#[trigger] parts[i]).contains(
                sep,
            ) by {
                if i < parts.len() - 1 {
                    assert(parts[i] == before[i]);
                } else {
                    assert(!before[before.len() - 1].contains(sep));
                    assert forall|k: int| 0 <= k < grown.len() implies grown[k] != sep by {
                        if k < grown.len() - 1 {
                            assert(grown[k] == before.last()[k]);
                        }
                    }
                }
            }
            if before.len() == 1 {
                assert(join(before, sep) == before[0]);
                assert(join(parts, sep) =~= s);
            } else {
                assert(join(parts, sep) =~= join(before, sep).push(s.last()));
                assert(join(parts, sep) =~= s);
            }
        }
    }
}

/// Joining pieces that do not hold `sep`, at least one of them, and splitting
/// the result gives the pieces back.
pub proof fn join_then_split(parts: Seq<Seq<char>>, sep: char)
    requires
        parts.len() >= 1,
        forall|i: int| 0 <= i < parts.len() ==> !(#[trigger] parts[i]).contains(sep),
    ensures
        split(join(parts, sep), sep) == parts,
    decreases parts.len(),
{
    if parts.len() == 1 {
        lemma_split_append(Seq::empty(), parts[0], sep);
        assert(Seq::<char>::empty() + parts[0] =~= parts[0]);
        assert(split(parts[0], sep) =~= parts) by {
            assert(Seq::<char>::empty() + parts[0] =~= parts[0]);
        }
    } else {
        let front = parts.drop_last();
        assert forall|i: int| 0 <= i < front.len() implies !(#[trigger] front[i]).contains(sep) by {
            assert(front[i] == parts[i]);
        }
        join_then_split(front, sep);
        let head = join(front, sep).push(sep);
        assert(head.drop_last() =~= join(front, sep));
        assert(split(head, sep) == front.push(Seq::<char>::empty()));
        lemma_split_append(head, parts.last(), sep);
        assert(Seq::<char>::empty() + parts.last() =~= parts.last());
        assert(front.push(Seq::<char>::empty()).drop_last() =~= front);
        assert(front.push(parts.last()) =~= parts);
    }
}

/// Trimming leaves a part of the text that neither begins nor ends with white
/// space and holds every other character of it; trimming again changes nothing.
pub proof fn trimmed_keeps_the_rest(s: Seq<char>)
    ensures
        trimmed(s).len() > 0 ==> !white_space(trimmed(s)[0]) && !white_space(trimmed(s).last()),
        forall|c: char| #[trigger] trimmed(s).contains(c) ==> s.contains(c),
        forall|c: char| #[trigger] s.contains(c) && !white_space(c) ==> trimmed(s).contains(c),
        trimmed(trimmed(s)) == trimmed(s),
{
    lemma_trim_start(s);
    lemma_trim_end(trim_start(s));
    let t = trimmed(s);
    assert(trim_start(t) == t);
    assert(trim_end(t) == t);
}

proof fn lemma_trim_start(s: Seq<char>)
    ensures
        trim_start(s).len() > 0 ==> !white_space(trim_start(s)[0]),
        forall|c: char| #[trigger] trim_start(s).contains(c) ==> s.contains(c),
        forall|c: char| #[trigger] s.contains(c) && !white_space(c) ==> trim_start(s).contains(c),
    decreases s.len(),
{
    if s.len() > 0 && white_space(s[0]) {
        let less = s.skip(1);
        lemma_trim_start(less);
        assert forall|c: char| #[trigger] trim_start(s).contains(c) implies s.contains(c) by {
            let k = choose|k: int| 0 <= k < less.len() && less[k] == c;
            assert(s[k + 1] == c);
        }
        assert forall|c: char| #[trigger] s.contains(c) && !white_space(c) implies trim_start(
            s,
        ).contains(c) by {
            let k = choose|k: int| 0 <= k < s.len() && s[k] == c;
            assert(less[k - 1] == c);
            assert(less.contains(c));
        }
    }
}

proof fn lemma_trim_end(s: Seq<char>)
    ensures
        trim_end(s).len() > 0 ==> !white_space(trim_end(s).last()) && trim_end(s)[0] == s[0],
        trim_end(s).len() <= s.len(),
        forall|c: char| #[trigger] trim_end(s).contains(c) ==> s.contains(c),
        forall|c: char| #[trigger] s.contains(c) && !white_space(c) ==> trim_end(s).contains(c),
    decreases s.len(),
{
    if s.len() > 0 && white_space(s.last()) {
        let less = s.drop_last();
        lemma_trim_end(less);
        assert forall|c: char| #[trigger] trim_end(s).contains(c) implies s.contains(c) by {
            let k = choose|k: int| 0 <= k < less.len() && less[k] == c;
            assert(s[k] == c);
        }
        assert forall|c: char| #[trigger] s.contains(c) && !white_space(c) implies trim_end(
            s,
        ).contains(c) by {
            let k = choose|k: int| 0 <= k < s.len() && s[k] == c;
            assert(less[k] == c);
            assert(less.contains(c));
        }
    }
}

/// Text without `sep` is its own only piece.
pub proof fn split_whole(s: Seq<char>, sep: char)
    requires
        !s.contains(sep),
    ensures
        split(s, sep) == seq![s],
{
    join_then_split(seq![s], sep);
}

/// Text without `sep` that follows `head` extends the last piece of `head`.
proof fn lemma_split_append(head: Seq<char>, tail: Seq<char>, sep: char)
    requires
        !tail.contains(sep),
    ensures
        split(head, sep).len() >= 1,
        split(head + tail, sep) == split(head, sep).drop_last().push(
            split(head, sep).last() + tail,
        ),
    decreases tail.len(),
{
    split_then_join(head, sep);
    let pieces = split(head, sep);
    if tail.len() == 0 {
        assert(head + tail =~= head);
        assert(pieces.last() + tail =~= pieces.last());
        assert(pieces.drop_last().push(pieces.last()) =~= pieces);
    } else {
        let less = tail.drop_last();
        assert forall|k: int| 0 <= k < less.len() implies less[k] != sep by {
            assert(less[k] == tail[k]);
        }
        assert(tail.last() == tail[tail.len() - 1]);
        lemma_split_append(head, less, sep);
        assert((head + tail).drop_last() =~= head + less);
        assert((head + tail).last() == tail.last());
        let grown = pieces.drop_last().push(pieces.last() + less);
        assert(grown.drop_last() =~= pieces.drop_last());
        assert((pieces.last() + less).push(tail.last()) =~= pieces.last() + tail);
    }
}

/// A character of a piece is a character of the whole.
pub proof fn piece_is_within(s: Seq<char>, i: int, sep: char, c: char)
    requires
        0 <= i < split(s, sep).len(),
        split(s, sep)[i].contains(c),
    ensures
        s.contains(c),
{
    split_then_join(s, sep);
    lemma_join_holds(split(s, sep), i, sep, c);
}

/// A character of a part is a character of the joined text.
proof fn lemma_join_holds(parts: Seq<Seq<char>>, i: int, sep: char, c: char)
    requires
        0 <= i < parts.len(),
        parts[i].contains(c),
    ensures
        join(parts, sep).contains(c),
    decreases parts.len(),
{
    let k = choose|k: int| 0 <= k < parts[i].len() && parts[i][k] == c;
    if parts.len() > 1 {
        let front = join(parts.drop_last(), sep);
        if i == parts.len() - 1 {
            assert(join(parts, sep)[front.len() + 1 + k] == c);
        } else {
            lemma_join_holds(parts.drop_last(), i, sep, c);
            let j = choose|j: int| 0 <= j < front.len() && front[j] == c;
            assert(join(parts, sep)[j] == c);
        }
    } else {
        assert(join(parts, sep)[k] == c);
    }
}

/// What joining spells out: nothing for no parts, the part itself for one, and
/// otherwise the parts before, the separator and the last part.
pub proof fn join_spells_out(parts: Seq<Seq<char>>, part: Seq<char>, sep: char)
    ensures
        join(Seq::<Seq<char>>::empty(), sep) == Seq::<char>::empty(),
        join(seq![part], sep) == part,
        parts.len() > 0 ==> join(parts.push(part), sep) == join(parts, sep) + seq![sep] + part,
{
    if parts.len() > 0 {
        assert(parts.push(part).drop_last() =~= parts);
        assert(join(parts, sep).push(sep) + part =~= join(parts, sep) + seq![sep] + part);
    }
}

/// A part more: what follows a separator, and holds none, is one piece more.
pub proof fn split_after_separator(s: Seq<char>, piece: Seq<char>, sep: char)
    requires
        !piece.contains(sep),
    ensures
        split(s + seq![sep] + piece, sep) == split(s, sep).push(piece),
{
    split_then_join(s, sep);
    let parts = split(s, sep).push(piece);
    assert forall|i: int| 0 <= i < parts.len() implies !(#[trigger] parts[i]).contains(sep) by {
        if i < parts.len() - 1 {
            assert(parts[i] == split(s, sep)[i]);
        }
    }
    join_then_split(parts, sep);
    join_spells_out(split(s, sep), piece, sep);
}

/// Trimming takes white space off the ends and nothing else: there is white space
/// in front and white space behind, perhaps none, and what is between is left.
pub proof fn trimming_takes_the_ends(s: Seq<char>)
    ensures
        exists|front: Seq<char>, back: Seq<char>|
            #![trigger front + trimmed(s) + back]
            s == front + trimmed(s) + back && (forall|i: int|
                0 <= i < front.len() ==> white_space(#[trigger] front[i])) && (forall|i: int|
                0 <= i < back.len() ==> white_space(#[trigger] back[i])),
        trimmed(s).len() > 0 ==> !white_space(trimmed(s)[0]) && !white_space(trimmed(s).last()),
{
    let front = lemma_front(s);
    let back = lemma_back(trim_start(s));
    trimmed_keeps_the_rest(s);
    assert(s =~= front + trimmed(s) + back);
}

/// The white space in front of a text.
proof fn lemma_front(s: Seq<char>) -> (front: Seq<char>)
    ensures
        s == front + trim_start(s),
        forall|i: int| 0 <= i < front.len() ==> white_space(#[trigger] front[i]),
    decreases s.len(),
{
    if s.len() > 0 && white_space(s[0]) {
        let more = lemma_front(s.skip(1));
        let front = seq![s[0]] + more;
        assert forall|i: int| 0 <= i < front.len() implies white_space(#[trigger] front[i]) by {
            if i > 0 {
                assert(front[i] == more[i - 1]);
            }
        }
        assert(s =~= seq![s[0]] + s.skip(1));
        assert(s =~= front + trim_start(s));
        front
    } else {
        assert(s =~= Seq::<char>::empty() + s);
        Seq::empty()
    }
}

/// The white space behind a text.
proof fn lemma_back(s: Seq<char>) -> (back: Seq<char>)
    ensures
        s == trim_end(s) + back,
        forall|i: int| 0 <= i < back.len() ==> white_space(#[trigger] back[i]),
    decreases s.len(),
{
    if s.len() > 0 && white_space(s.last()) {
        let more = lemma_back(s.drop_last());
        let back = more.push(s.last());
        assert forall|i: int| 0 <= i < back.len() implies white_space(#[trigger] back[i]) by {
            if i < more.len() {
                assert(back[i] == more[i]);
            }
        }
        assert(s =~= s.drop_last().push(s.last()));
        assert(s =~= trim_end(s) + back);
        back
    } else {
        assert(s =~= s + Seq::<char>::empty());
        Seq::empty()
    }
}

/// The number that a row of decimal digits stands for.
pub open spec fn numeral_value(s: Seq<char>) -> int
    decreases s.len(),
{
    if s.len() == 0 {
        0
    } else {
        numeral_value(s.drop_last()) * 10 + (s.last() as u32 as int - '0' as u32 as int)
    }
}

/// A decimal numeral is a row of digits that stands for its number.
pub proof fn decimal_stands_for_its_number(n: nat)
    ensures
        decimal(n).len() > 0,
        forall|i: int| 0 <= i < decimal(n).len() ==> '0' <= #[trigger] decimal(n)[i] <= '9',
        numeral_value(decimal(n)) == n,
    decreases n,
{
    let s = decimal(n);
    if n >= 10 {
        decimal_stands_for_its_number(n / 10);
        assert(s.drop_last() =~= decimal(n / 10));
        assert(s.last() == digit(n % 10));
    } else {
        assert(s.drop_last() =~= Seq::<char>::empty());
        assert(numeral_value(s.drop_last()) == 0);
    }
}

/// What stands before the first separator is the first piece.
pub proof fn split_before_separator(first: Seq<char>, rest: Seq<char>, sep: char)
    requires
        !first.contains(sep),
    ensures
        split(first + seq![sep] + rest, sep)[0] == first,
        split(first + seq![sep] + rest, sep).len() >= 2,
    decreases rest.len(),
{
    let s = first + seq![sep] + rest;
    if rest.len() == 0 {
        assert(s.drop_last() =~= first);
        split_whole(first, sep);
    } else {
        split_before_separator(first, rest.drop_last(), sep);
        assert(s.drop_last() =~= first + seq![sep] + rest.drop_last());
    }
}

} // verus!
