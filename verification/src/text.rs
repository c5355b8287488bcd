//! Text and byte helpers, with the mathematical model of each.

use vstd::prelude::*;
use vstd::string::*;
use vstd::utf8::*;

verus! {

/// Two texts are equal exactly when their UTF-8 encodings are.
pub proof fn lemma_encoding_is_injective(a: Seq<char>, b: Seq<char>)
    ensures
        (encode_utf8(a) == encode_utf8(b)) == (a == b),
{
    encode_utf8_decode_utf8(a);
    encode_utf8_decode_utf8(b);
}

/// Compares two byte slices.
pub fn same_bytes(a: &[u8], b: &[u8]) -> (same: bool)
    ensures
        same == (a@ == b@),
{
    if a.len() != b.len() {
        return false;
    }
    let mut i: usize = 0;
    while i < a.len()
        invariant
            i <= a.len(),
            a.len() == b.len(),
            forall|k: int| 0 <= k < i ==> a@[k] == b@[k],
        decreases a.len() - i,
    {
        if a[i] != b[i] {
            return false;
        }
        i += 1;
    }
    assert(a@ =~= b@);
    true
}

/// Compares two texts.
pub fn same_text(a: &str, b: &str) -> (same: bool)
    ensures
        same == (a@ == b@),
{
    proof {
        lemma_encoding_is_injective(a@, b@);
    }
    same_bytes(a.as_bytes(), b.as_bytes())
}

/// The characters of a text.
pub fn chars_of(text: &str) -> (chars: Vec<char>)
    ensures
        chars@ == text@,
{
    let mut chars: Vec<char> = Vec::new();
    for c in it: text.chars()
        invariant
            it.seq() == text@,
            chars@ == text@.take(it.index() as int),
    {
        chars.push(c);
    }
    chars
}

/// The decimal digit `d`.
pub open spec fn digit(d: nat) -> char {
    if d == 0 { '0' } else if d == 1 { '1' } else if d == 2 { '2' } else if d == 3 { '3' }
    else if d == 4 { '4' } else if d == 5 { '5' } else if d == 6 { '6' } else if d == 7 { '7' }
    else if d == 8 { '8' } else { '9' }
}

/// The decimal numeral of `n`, without leading zeros.
pub open spec fn decimal(n: nat) -> Seq<char>
    decreases n,
{
    if n < 10 {
        seq![digit(n)]
    } else {
        decimal(n / 10).push(digit(n % 10))
    }
}

fn digit_text(d: u128) -> (text: &'static str)
    requires
        d < 10,
    ensures
        text@ == seq![digit(d as nat)],
{
    proof {
        reveal_strlit("0");
        reveal_strlit("1");
        reveal_strlit("2");
        reveal_strlit("3");
        reveal_strlit("4");
        reveal_strlit("5");
        reveal_strlit("6");
        reveal_strlit("7");
        reveal_strlit("8");
        reveal_strlit("9");
    }
    let text: &'static str = if d == 0 { "0" } else if d == 1 { "1" } else if d == 2 { "2" }
        else if d == 3 { "3" } else if d == 4 { "4" } else if d == 5 { "5" }
        else if d == 6 { "6" } else if d == 7 { "7" } else if d == 8 { "8" } else { "9" };
    assert(text@ =~= seq![digit(d as nat)]);
    text
}

/// Renders `n` in decimal.
pub fn decimal_text(n: u128) -> (text: String)
    ensures
        text@ == decimal(n as nat),
    decreases n,
{
    if n < 10 {
        digit_text(n).to_owned()
    } else {
        let mut text = decimal_text(n / 10);
        text.append(digit_text(n % 10));
        assert(text@ =~= decimal(n as nat));
        text
    }
}

/// `part` stands in `whole` at position `at`.
pub open spec fn occurs_at<A>(whole: Seq<A>, part: Seq<A>, at: int) -> bool {
    &&& 0 <= at
    &&& at + part.len() <= whole.len()
    &&& whole.subrange(at, at + part.len()) == part
}

/// `part` stands somewhere in `whole`.
pub open spec fn occurs_in<A>(whole: Seq<A>, part: Seq<A>) -> bool {
    exists|at: int| occurs_at(whole, part, at)
}

fn chars_at(whole: &Vec<char>, part: &Vec<char>, at: usize) -> (found: bool)
    requires
        at + part.len() <= whole.len(),
    ensures
        found == occurs_at(whole@, part@, at as int),
{
    let mut i: usize = 0;
    while i < part.len()
        invariant
            i <= part.len(),
            at + part.len() <= whole.len(),
            forall|k: int| 0 <= k < i ==> whole@[at + k] == part@[k],
        decreases part.len() - i,
    {
        if whole[at + i] != part[i] {
            assert(whole@.subrange(at as int, at + part@.len())[i as int] != part@[i as int]);
            return false;
        }
        i += 1;
    }
    assert(whole@.subrange(at as int, at + part@.len()) =~= part@);
    true
}

/// Whether `part` is a substring of `whole`.
pub fn text_contains(whole: &str, part: &str) -> (found: bool)
    ensures
        found == occurs_in(whole@, part@),
{
    let whole_chars = chars_of(whole);
    let part_chars = chars_of(part);
    if part_chars.len() > whole_chars.len() {
        return false;
    }
    let last: usize = whole_chars.len() - part_chars.len();
    let mut at: usize = 0;
    while at <= last
        invariant
            whole_chars@ == whole@,
            part_chars@ == part@,
            last == whole@.len() - part@.len(),
            at <= last + 1,
            last < usize::MAX || at <= last,
            forall|k: int| 0 <= k < at ==> !occurs_at(whole@, part@, k),
        decreases last + 1 - at,
    {
        if chars_at(&whole_chars, &part_chars, at) {
            assert(occurs_at(whole@, part@, at as int));
            return true;
        }
        if at == last {
            return false;
        }
        at += 1;
    }
    false
}

/// Whether `text` begins with `prefix`.
pub open spec fn begins_with<A>(text: Seq<A>, prefix: Seq<A>) -> bool {
    prefix.len() <= text.len() && text.take(prefix.len() as int) == prefix
}

/// Whether `text` begins with `prefix`.
pub fn text_starts_with(text: &str, prefix: &str) -> (starts: bool)
    ensures
        starts == begins_with(text@, prefix@),
{
    let text_chars = chars_of(text);
    let prefix_chars = chars_of(prefix);
    if prefix_chars.len() > text_chars.len() {
        return false;
    }
    assert(text@.take(prefix@.len() as int) =~= text@.subrange(0, 0 + prefix@.len() as int));
    chars_at(&text_chars, &prefix_chars, 0)
}

/// What follows `prefix` in `text`, if `text` begins with it.
pub open spec fn without_prefix(text: Seq<char>, prefix: Seq<char>) -> Option<Seq<char>> {
    if begins_with(text, prefix) {
        Some(text.skip(prefix.len() as int))
    } else {
        None
    }
}

/// What follows `prefix` in `text`, if `text` begins with it.
pub fn strip_text_prefix(text: &str, prefix: &str) -> (rest: Option<String>)
    ensures
        match rest {
            Some(rest) => without_prefix(text@, prefix@) == Some(rest@),
            None => without_prefix(text@, prefix@) is None,
        },
{
    if text_starts_with(text, prefix) {
        let from = prefix.unicode_len();
        let to = text.unicode_len();
        let rest = text.substring_char(from, to).to_owned();
        assert(rest@ =~= text@.skip(prefix@.len() as int));
        Some(rest)
    } else {
        None
    }
}

/// The views of a list of texts.
pub open spec fn views(texts: Seq<String>) -> Seq<Seq<char>> {
    texts.map_values(|text: String| text@)
}

/// The pieces of `text` between the separators.
pub open spec fn split_on(text: Seq<char>, separator: char) -> Seq<Seq<char>>
    decreases text.len(),
{
    if text.len() == 0 {
        seq![Seq::<char>::empty()]
    } else {
        let front = split_on(text.drop_last(), separator);
        if text.last() == separator {
            front.push(Seq::<char>::empty())
        } else {
            front.drop_last().push(front.last().push(text.last()))
        }
    }
}

/// The pieces laid end to end, with one separator between neighbours.
pub open spec fn joined(pieces: Seq<Seq<char>>, separator: Seq<char>) -> Seq<char>
    decreases pieces.len(),
{
    if pieces.len() == 0 {
        Seq::<char>::empty()
    } else if pieces.len() == 1 {
        pieces[0]
    } else {
        joined(pieces.drop_last(), separator) + separator + pieces.last()
    }
}

/// Splitting never returns an empty list, no piece holds the separator, and
/// joining the pieces with the separator gives the text back.
pub proof fn lemma_split_then_join(text: Seq<char>, separator: char)
    ensures
        split_on(text, separator).len() >= 1,
        forall|i: int|
            0 <= i < split_on(text, separator).len() ==> !(
            #[trigger] split_on(text, separator)[i]).contains(separator),
        joined(split_on(text, separator), seq![separator]) == text,
    decreases text.len(),
{
    let pieces = split_on(text, separator);
    if text.len() == 0 {
        assert(pieces =~= seq![Seq::<char>::empty()]);
        assert(joined(pieces, seq![separator]) =~= text);
    } else {
        lemma_split_then_join(text.drop_last(), separator);
        let front = split_on(text.drop_last(), separator);
        assert(text =~= text.drop_last().push(text.last()));
        if text.last() == separator {
            assert(pieces.drop_last() =~= front);
            assert(joined(pieces, seq![separator]) =~= text);
        } else {
            let grown = front.last().push(text.last());
            assert(pieces.drop_last() =~= front.drop_last());
            assert(pieces.last() == grown);
            assert(!grown.contains(separator)) by {
                if grown.contains(separator) {
                    let k = choose|k: int| 0 <= k < grown.len() && grown[k] == separator;
                    assert(front.last()[k] == separator);
                    assert(front[front.len() - 1].contains(separator));
                }
            }
            assert forall|i: int| 0 <= i < pieces.len() implies !(
            #[trigger] pieces[i]).contains(separator) by {
                if i < pieces.len() - 1 {
                    assert(pieces[i] == front[i]);
                }
            }
            assert(joined(pieces, seq![separator]) =~= text);
        }
    }
}

/// Splits `text` at every `separator`.
pub fn split_text(text: &str, separator: char) -> (pieces: Vec<String>)
    ensures
        views(pieces@) == split_on(text@, separator),
        pieces.len() >= 1,
{
    let chars = chars_of(text);
    let mut pieces: Vec<String> = Vec::new();
    let mut start: usize = 0;
    let mut i: usize = 0;
    assert(text@.subrange(0, 0) =~= Seq::<char>::empty());
    assert(views(pieces@).push(text@.subrange(0, 0)) =~= split_on(text@.take(0), separator));
    while i < chars.len()
        invariant
            chars@ == text@,
            start <= i <= chars.len(),
            views(pieces@).push(text@.subrange(start as int, i as int)) == split_on(
                text@.take(i as int),
                separator,
            ),
        decreases chars.len() - i,
    {
        let ghost before = text@.take(i as int);
        let ghost after = text@.take(i + 1);
        let ghost front = split_on(before, separator);
        assert(after.drop_last() =~= before);
        assert(after.last() == text@[i as int]);
        if chars[i] == separator {
            let piece = text.substring_char(start, i).to_owned();
            let ghost old_pieces = pieces@;
            pieces.push(piece);
            start = i + 1;
            assert(views(pieces@) =~= views(old_pieces).push(piece@));
            assert(text@.subrange(start as int, i + 1) =~= Seq::<char>::empty());
        } else {
            assert(front.drop_last() =~= views(pieces@));
            assert(text@.subrange(start as int, i + 1) =~= text@.subrange(
                start as int,
                i as int,
            ).push(text@[i as int]));
        }
        i += 1;
    }
    assert(text@.take(i as int) =~= text@);
    let ghost old_pieces = pieces@;
    let last = text.substring_char(start, i).to_owned();
    pieces.push(last);
    assert(views(pieces@) =~= views(old_pieces).push(last@));
    pieces
}

/// Joins `pieces` with `separator` between neighbours.
pub fn join_texts(pieces: &Vec<String>, separator: &str) -> (text: String)
    ensures
        text@ == joined(views(pieces@), separator@),
{
    let mut text = String::new();
    let mut i: usize = 0;
    assert(views(pieces@).take(0) =~= Seq::<Seq<char>>::empty());
    while i < pieces.len()
        invariant
            i <= pieces.len(),
            text@ == joined(views(pieces@).take(i as int), separator@),
        decreases pieces.len() - i,
    {
        let ghost next = views(pieces@).take(i + 1);
        assert(next.drop_last() =~= views(pieces@).take(i as int));
        assert(next.last() == pieces@[i as int]@);
        if i > 0 {
            text.append(separator);
        }
        text.append(pieces[i].as_str());
        assert(text@ =~= joined(next, separator@));
        i += 1;
    }
    assert(views(pieces@).take(i as int) =~= views(pieces@));
    text
}

/// A line without the carriage return that may end it.
pub open spec fn without_carriage_return(line: Seq<char>) -> Seq<char> {
    if line.len() > 0 && line.last() == '\r' {
        line.drop_last()
    } else {
        line
    }
}

/// The lines of `text`: each ends at a line feed, which with a carriage return
/// before it is not part of the line, and a last line may lack its line feed.
pub open spec fn lines(text: Seq<char>) -> Seq<Seq<char>> {
    let pieces = split_on(text, '\n');
    let ended = pieces.drop_last().map_values(|line: Seq<char>| without_carriage_return(line));
    if pieces.last().len() == 0 {
        ended
    } else {
        ended.push(pieces.last())
    }
}

/// The lines of `text`.
pub fn lines_of(text: &str) -> (found: Vec<String>)
    ensures
        views(found@) == lines(text@),
{
    let mut pieces = split_text(text, '\n');
    let ghost all = views(pieces@);
    let last = match pieces.pop() {
        Some(last) => last,
        None => String::new(),
    };
    assert(views(pieces@) =~= all.drop_last());
    let mut found: Vec<String> = Vec::new();
    let mut i: usize = 0;
    while i < pieces.len()
        invariant
            i <= pieces.len(),
            views(pieces@) == all.drop_last(),
            views(found@) == all.drop_last().map_values(
                |line: Seq<char>| without_carriage_return(line),
            ).take(i as int),
        decreases pieces.len() - i,
    {
        let ghost so_far = found@;
        let ghost target = all.drop_last().map_values(
            |line: Seq<char>| without_carriage_return(line),
        );
        let piece = pieces[i].as_str();
        assert(piece@ == views(pieces@)[i as int]);
        let length = piece.unicode_len();
        if length > 0 && piece.get_char(length - 1) == '\r' {
            let line = piece.substring_char(0, length - 1).to_owned();
            assert(line@ =~= piece@.drop_last());
            found.push(line);
        } else {
            found.push(piece.to_owned());
        }
        assert(found@.last()@ == without_carriage_return(all.drop_last()[i as int]));
        assert(views(found@) =~= views(so_far).push(found@.last()@));
        assert(target.take(i + 1) =~= target.take(i as int).push(target[i as int]));
        i += 1;
    }
    let ghost target = all.drop_last().map_values(|line: Seq<char>| without_carriage_return(line));
    assert(target.take(i as int) =~= target);
    if last.as_str().is_empty() {
        found
    } else {
        found.push(last);
        assert(views(found@) =~= target.push(last@));
        found
    }
}

/// Unicode white space.
pub open spec fn is_white(c: char) -> bool {
    let code = c as u32;
    ||| 0x09 <= code <= 0x0d
    ||| code == 0x20
    ||| code == 0x85
    ||| code == 0xa0
    ||| code == 0x1680
    ||| 0x2000 <= code <= 0x200a
    ||| code == 0x2028
    ||| code == 0x2029
    ||| code == 0x202f
    ||| code == 0x205f
    ||| code == 0x3000
}

/// `text` without the white space at its start.
pub open spec fn trimmed_start(text: Seq<char>) -> Seq<char>
    decreases text.len(),
{
    if text.len() > 0 && is_white(text[0]) {
        trimmed_start(text.drop_first())
    } else {
        text
    }
}

/// `text` without the white space at its end.
pub open spec fn trimmed_end(text: Seq<char>) -> Seq<char>
    decreases text.len(),
{
    if text.len() > 0 && is_white(text.last()) {
        trimmed_end(text.drop_last())
    } else {
        text
    }
}

/// `text` without the white space around it.
pub open spec fn trimmed(text: Seq<char>) -> Seq<char> {
    trimmed_start(trimmed_end(text))
}

fn white(c: char) -> (answer: bool)
    ensures
        answer == is_white(c),
{
    let code: u32 = c as u32;
    (0x09 <= code && code <= 0x0d) || code == 0x20 || code == 0x85 || code == 0xa0 || code
        == 0x1680 || (0x2000 <= code && code <= 0x200a) || code == 0x2028 || code == 0x2029 || code
        == 0x202f || code == 0x205f || code == 0x3000
}

/// `text` without the white space around it.
pub fn trim_text(text: &str) -> (rest: String)
    ensures
        rest@ == trimmed(text@),
{
    let chars = chars_of(text);
    let mut to: usize = chars.len();
    assert(text@.take(to as int) =~= text@);
    while to > 0 && white(chars[to - 1])
        invariant
            chars@ == text@,
            to <= chars.len(),
            trimmed_end(text@) == trimmed_end(text@.take(to as int)),
        decreases to,
    {
        assert(text@.take(to as int).drop_last() =~= text@.take(to - 1));
        to -= 1;
    }
    let mut from: usize = 0;
    assert(text@.subrange(0, to as int) =~= text@.take(to as int));
    while from < to && white(chars[from])
        invariant
            chars@ == text@,
            from <= to <= chars.len(),
            trimmed(text@) == trimmed_start(text@.subrange(from as int, to as int)),
        decreases to - from,
    {
        assert(text@.subrange(from as int, to as int).drop_first() =~= text@.subrange(
            from + 1,
            to as int,
        ));
        from += 1;
    }
    text.substring_char(from, to).to_owned()
}

/// What stands before `suffix` in `text`, if `text` ends with it.
pub open spec fn without_suffix(text: Seq<char>, suffix: Seq<char>) -> Option<Seq<char>> {
    let at = text.len() - suffix.len();
    if at >= 0 && text.skip(at) == suffix {
        Some(text.take(at))
    } else {
        None
    }
}

/// What stands before `suffix` in `text`, if `text` ends with it.
pub fn strip_text_suffix(text: &str, suffix: &str) -> (rest: Option<String>)
    ensures
        match rest {
            Some(rest) => without_suffix(text@, suffix@) == Some(rest@),
            None => without_suffix(text@, suffix@) is None,
        },
{
    let text_chars = chars_of(text);
    let suffix_chars = chars_of(suffix);
    if suffix_chars.len() > text_chars.len() {
        return None;
    }
    let at: usize = text_chars.len() - suffix_chars.len();
    assert(text@.skip(at as int) =~= text@.subrange(at as int, at + suffix@.len()));
    if chars_at(&text_chars, &suffix_chars, at) {
        let rest = text.substring_char(0, at).to_owned();
        assert(rest@ =~= text@.take(at as int));
        Some(rest)
    } else {
        None
    }
}

/// The decimal numeral of `n`, with a minus sign where it is negative.
pub open spec fn signed_decimal(n: int) -> Seq<char> {
    if n < 0 {
        "-"@ + decimal((-n) as nat)
    } else {
        decimal(n as nat)
    }
}

/// Renders `n` in decimal.
pub fn signed_text(n: i64) -> (text: String)
    ensures
        text@ == signed_decimal(n as int),
{
    if n < 0 {
        let size: u128 = (-(n as i128)) as u128;
        let digits = decimal_text(size);
        "-".to_owned().concat(digits.as_str())
    } else {
        decimal_text(n as u128)
    }
}

/// An optional number as a debug listing shows it.
pub open spec fn option_debug(number: Option<i32>) -> Seq<char> {
    match number {
        Some(n) => "Some("@ + signed_decimal(n as int) + ")"@,
        None => "None"@,
    }
}

/// An optional number as a debug listing shows it.
pub fn option_text(number: Option<i32>) -> (text: String)
    ensures
        text@ == option_debug(number),
{
    match number {
        Some(n) => {
            let digits = signed_text(n as i64);
            "Some(".to_owned().concat(digits.as_str()).concat(")")
        },
        None => "None".to_owned(),
    }
}

/// Every byte of the encoding of `text` satisfies `property`.
pub open spec fn all_bytes(text: Seq<char>, property: spec_fn(u8) -> bool) -> bool {
    forall|i: int| 0 <= i < encode_utf8(text).len() ==> property(#[trigger] encode_utf8(text)[i])
}

/// The number that a row of digits says.
pub open spec fn numeral_value(digits: Seq<char>) -> int
    decreases digits.len(),
{
    if digits.len() == 0 {
        0
    } else {
        10 * numeral_value(digits.drop_last()) + (digits.last() as u32 - '0' as u32)
    }
}

/// A numeral says its number, in digits alone and without a leading zero; so
/// different numbers have different numerals.
pub proof fn lemma_decimal_reads_back(n: nat)
    ensures
        numeral_value(decimal(n)) == n,
        decimal(n).len() > 0,
        forall|i: int|
            0 <= i < decimal(n).len() ==> '0' <= #[trigger] decimal(n)[i] <= '9',
        n > 0 ==> decimal(n)[0] != '0',
    decreases n,
{
    reveal_with_fuel(numeral_value, 2);
    if n < 10 {
        assert(decimal(n).drop_last() =~= Seq::empty());
    } else {
        let front = decimal(n / 10);
        lemma_decimal_reads_back(n / 10);
        assert(decimal(n).drop_last() =~= front);
        assert(decimal(n)[0] == front[0]);
        assert forall|i: int| 0 <= i < decimal(n).len() implies '0' <= #[trigger] decimal(
            n,
        )[i] <= '9' by {
            if i < front.len() {
                assert(decimal(n)[i] == front[i]);
            }
        }
    }
}

/// A negative number is its size behind a minus sign, and no other number has
/// one, so different numbers are printed differently.
pub proof fn lemma_signed_decimal(a: int, b: int)
    ensures
        a >= 0 ==> numeral_value(signed_decimal(a)) == a,
        a < 0 ==> signed_decimal(a)[0] == '-' && numeral_value(signed_decimal(a).skip(1)) == -a,
        signed_decimal(a) == signed_decimal(b) ==> a == b,
{
    reveal_strlit("-");
    let size = |n: int| if n < 0 { -n } else { n };
    lemma_decimal_reads_back(size(a) as nat);
    lemma_decimal_reads_back(size(b) as nat);
    assert(a < 0 ==> signed_decimal(a).skip(1) =~= decimal((-a) as nat));
    assert(b < 0 ==> signed_decimal(b).skip(1) =~= decimal((-b) as nat));
    assert(a >= 0 ==> signed_decimal(a)[0] >= '0');
    assert(b >= 0 ==> signed_decimal(b)[0] >= '0');
}

/// The first piece of a text ends at its first separator, and what follows is
/// split by itself.
pub proof fn lemma_split_at_the_first(piece: Seq<char>, rest: Seq<char>, separator: char)
    requires
        !piece.contains(separator),
    ensures
        split_on(piece, separator) == seq![piece],
        split_on(piece + seq![separator] + rest, separator) == seq![piece] + split_on(
            rest,
            separator,
        ),
    decreases piece.len() + rest.len(),
{
    lemma_split_of_piece(piece, separator);
    let whole = piece + seq![separator] + rest;
    lemma_split_then_join(rest, separator);
    if rest.len() == 0 {
        assert(whole.drop_last() =~= piece);
        assert(split_on(whole, separator) =~= seq![piece] + split_on(rest, separator));
    } else {
        let front = rest.drop_last();
        lemma_split_at_the_first(piece, front, separator);
        lemma_split_then_join(front, separator);
        assert(whole.drop_last() =~= piece + seq![separator] + front);
        assert(whole.last() == rest.last());
        assert(split_on(whole, separator) =~= seq![piece] + split_on(rest, separator));
    }
}

proof fn lemma_split_of_piece(piece: Seq<char>, separator: char)
    requires
        !piece.contains(separator),
    ensures
        split_on(piece, separator) == seq![piece],
    decreases piece.len(),
{
    if piece.len() > 0 {
        let front = piece.drop_last();
        assert forall|i: int| 0 <= i < front.len() implies front[i] != separator by {
            assert(piece[i] == front[i]);
            assert(piece.contains(piece[i]));
        }
        assert(piece.last() == piece[piece.len() - 1]);
        assert(piece.contains(piece.last()));
        lemma_split_of_piece(front, separator);
        assert(front.push(piece.last()) =~= piece);
        assert(split_on(piece, separator) =~= seq![piece]);
    } else {
        assert(piece =~= Seq::empty());
        assert(split_on(piece, separator) =~= seq![piece]);
    }
}

/// Two lists of pieces in a row are joined by one separator between them, and
/// one piece is joined as it is.
pub proof fn lemma_joined_adds_up(
    first: Seq<Seq<char>>,
    second: Seq<Seq<char>>,
    separator: Seq<char>,
)
    requires
        first.len() > 0,
        second.len() > 0,
    ensures
        joined(first + second, separator) == joined(first, separator) + separator + joined(
            second,
            separator,
        ),
        joined(seq![first[0]], separator) == first[0],
    decreases second.len(),
{
    let whole = first + second;
    assert(whole.drop_last() =~= first + second.drop_last());
    assert(whole.last() == second.last());
    if second.len() == 1 {
        assert(first + second.drop_last() =~= first);
        assert(joined(second, separator) == second[0]);
    } else {
        lemma_joined_adds_up(first, second.drop_last(), separator);
        assert(joined(whole, separator) =~= joined(first, separator) + separator + joined(
            second,
            separator,
        ));
    }
}

/// The lines of a text: what stands before the first line feed is the first,
/// without the one carriage return that may end it, and the lines of the rest
/// follow.  A last line without a line feed is taken as it stands, and an empty
/// text has no line.
pub proof fn lemma_lines(line: Seq<char>, rest: Seq<char>)
    requires
        !line.contains('\n'),
    ensures
        lines(Seq::empty()).len() == 0,
        line.len() > 0 ==> lines(line) == seq![line],
        line.len() == 0 || line.last() != '\r' ==> lines(line + seq!['\n'] + rest) == seq![line]
            + lines(rest),
        lines(line + seq!['\r', '\n'] + rest) == seq![line] + lines(rest),
{
    let of = |line: Seq<char>| without_carriage_return(line);
    let whole = line + seq!['\n'] + rest;
    let returned = line.push('\r');
    assert(!returned.contains('\n')) by {
        assert forall|i: int| 0 <= i < returned.len() implies returned[i] != '\n' by {
            if i < line.len() {
                assert(line.contains(line[i]));
            }
        }
    }
    lemma_split_at_the_first(line, rest, '\n');
    lemma_split_at_the_first(returned, rest, '\n');
    lemma_split_then_join(rest, '\n');
    let pieces = split_on(rest, '\n');
    assert(split_on(Seq::<char>::empty(), '\n') =~= seq![Seq::<char>::empty()]);
    assert(lines(line) =~= if line.len() > 0 {
        seq![line]
    } else {
        Seq::empty()
    });
    assert((seq![line] + pieces).drop_last() =~= seq![line] + pieces.drop_last());
    assert((seq![returned] + pieces).drop_last() =~= seq![returned] + pieces.drop_last());
    assert((seq![line] + pieces).last() == pieces.last());
    assert((seq![returned] + pieces).last() == pieces.last());
    assert(returned.drop_last() =~= line);
    if line.len() == 0 || line.last() != '\r' {
        assert(lines(whole) =~= seq![line] + lines(rest));
    }
    assert(line + seq!['\r', '\n'] + rest =~= returned + seq!['\n'] + rest);
    assert(lines(returned + seq!['\n'] + rest) =~= seq![line] + lines(rest));
}

/// White space in ASCII is the space, the tab, the line feed, the vertical tab,
/// the form feed and the carriage return.
pub proof fn lemma_ascii_white_space(c: char)
    requires
        (c as u32) < 0x80,
    ensures
        is_white(c) <==> c == ' ' || c == '\t' || c == '\n' || c == '\r' || c as u32 == 0x0b
            || c as u32 == 0x0c,
{
}

/// Trimming takes the white space around a text and nothing else: what is left
/// neither begins nor ends with white space, and whatever white space is put
/// around such a text is taken off again.
pub proof fn lemma_trimmed(text: Seq<char>, left: Seq<char>, core: Seq<char>, right: Seq<char>)
    ensures
        trimmed(text).len() > 0 ==> !is_white(trimmed(text)[0]) && !is_white(trimmed(text).last()),
        occurs_in(text, trimmed(text)),
        (forall|i: int| 0 <= i < left.len() ==> is_white(#[trigger] left[i])) && (forall|i: int|
            0 <= i < right.len() ==> is_white(#[trigger] right[i])) && (core.len() > 0 ==> !is_white(
            core[0],
        ) && !is_white(core.last())) ==> trimmed(left + core + right) == core,
{
    lemma_trimmed_end(text);
    lemma_trimmed_start(trimmed_end(text));
    let ended = trimmed_end(text);
    let from = ended.len() - trimmed(text).len();
    assert(text.subrange(from, from + trimmed(text).len()) =~= trimmed(text)) by {
        assert forall|i: int| 0 <= i < trimmed(text).len() implies text[from + i] == trimmed(
            text,
        )[i] by {
            assert(ended.skip(from)[i] == ended[from + i]);
            assert(text.take(ended.len() as int)[from + i] == text[from + i]);
        }
    }
    assert(occurs_at(text, trimmed(text), from));
    if trimmed(text).len() > 0 {
        assert(trimmed(text).last() == ended.last());
    }
    if (forall|i: int| 0 <= i < left.len() ==> is_white(#[trigger] left[i])) && (forall|i: int|
        0 <= i < right.len() ==> is_white(#[trigger] right[i])) && (core.len() > 0 ==> !is_white(
        core[0],
    ) && !is_white(core.last())) {
        let whole = left + core;
        lemma_trimmed_end_of(whole, right);
        if core.len() > 0 {
            assert(whole.last() == core.last());
            lemma_trimmed_start_of(left, core);
        } else {
            assert(whole =~= left);
            lemma_trimmed_end_of(Seq::empty(), left);
            assert(Seq::<char>::empty() + left =~= left);
            assert(trimmed(left + core + right) =~= core);
        }
    }
}

proof fn lemma_trimmed_end(text: Seq<char>)
    ensures
        trimmed_end(text).len() <= text.len(),
        trimmed_end(text) == text.take(trimmed_end(text).len() as int),
        trimmed_end(text).len() > 0 ==> !is_white(trimmed_end(text).last()),
    decreases text.len(),
{
    if text.len() > 0 && is_white(text.last()) {
        lemma_trimmed_end(text.drop_last());
        assert(text.drop_last().take(trimmed_end(text).len() as int) =~= text.take(
            trimmed_end(text).len() as int,
        ));
    } else {
        assert(text.take(text.len() as int) =~= text);
    }
}

proof fn lemma_trimmed_start(text: Seq<char>)
    ensures
        trimmed_start(text).len() <= text.len(),
        trimmed_start(text) == text.skip(text.len() - trimmed_start(text).len()),
        trimmed_start(text).len() > 0 ==> !is_white(trimmed_start(text)[0]),
    decreases text.len(),
{
    if text.len() > 0 && is_white(text[0]) {
        let rest = text.drop_first();
        lemma_trimmed_start(rest);
        let size = trimmed_start(text).len();
        assert(rest.skip(rest.len() - size) =~= text.skip(text.len() - size));
    } else {
        assert(text.skip(0) =~= text);
    }
}

proof fn lemma_trimmed_end_of(text: Seq<char>, white: Seq<char>)
    requires
        forall|i: int| 0 <= i < white.len() ==> is_white(#[trigger] white[i]),
    ensures
        trimmed_end(text + white) == trimmed_end(text),
    decreases white.len(),
{
    if white.len() == 0 {
        assert(text + white =~= text);
    } else {
        assert((text + white).drop_last() =~= text + white.drop_last());
        assert((text + white).last() == white[white.len() - 1]);
        lemma_trimmed_end_of(text, white.drop_last());
    }
}

proof fn lemma_trimmed_start_of(white: Seq<char>, core: Seq<char>)
    requires
        forall|i: int| 0 <= i < white.len() ==> is_white(#[trigger] white[i]),
        core.len() > 0,
        !is_white(core[0]),
    ensures
        trimmed_start(white + core) == core,
    decreases white.len(),
{
    if white.len() == 0 {
        assert(white + core =~= core);
    } else {
        assert((white + core).drop_first() =~= white.drop_first() + core);
        assert((white + core)[0] == white[0]);
        lemma_trimmed_start_of(white.drop_first(), core);
    }
}

/// A prefix or a suffix is taken off exactly where it was put, and what is left
/// is the rest of the text.
pub proof fn lemma_ends_of_a_text(text: Seq<char>, part: Seq<char>, rest: Seq<char>)
    ensures
        without_prefix(text, part) == Some(rest) <==> text == part + rest,
        without_suffix(text, part) == Some(rest) <==> text == rest + part,
        begins_with(text, part) <==> without_prefix(text, part) is Some,
{
    if begins_with(text, part) {
        assert(text =~= part + text.skip(part.len() as int));
    }
    if text == part + rest {
        assert(text.take(part.len() as int) =~= part);
        assert(text.skip(part.len() as int) =~= rest);
    }
    let at = text.len() - part.len();
    if at >= 0 && text.skip(at) == part {
        assert(text =~= text.take(at) + part);
    }
    if text == rest + part {
        assert(text.skip(at) =~= part);
        assert(text.take(at) =~= rest);
    }
}

/// A text holds a part exactly when it is that part with something, possibly
/// nothing, before it and after it.
pub proof fn lemma_occurs(whole: Seq<char>, part: Seq<char>)
    ensures
        occurs_in(whole, part) <==> exists|before: Seq<char>, after: Seq<char>|
            whole == #[trigger] (before + part + after),
{
    if occurs_in(whole, part) {
        let at = choose|at: int| occurs_at(whole, part, at);
        let before = whole.subrange(0, at);
        let after = whole.subrange(at + part.len(), whole.len() as int);
        assert(whole =~= before + part + after);
    }
    if exists|before: Seq<char>, after: Seq<char>| whole == #[trigger] (before + part + after) {
        let (before, after) = choose|before: Seq<char>, after: Seq<char>|
            whole == #[trigger] (before + part + after);
        assert(whole.subrange(before.len() as int, before.len() + part.len() as int) =~= part);
        assert(occurs_at(whole, part, before.len() as int));
    }
}

/// A character whose first byte is ASCII is an ASCII character.
proof fn lemma_ascii_scalar(c: char)
    requires
        encode_scalar(c as u32)[0] < 0x80,
    ensures
        '\0' <= c <= '\u{7f}',
        encode_scalar(c as u32).len() == 1,
{
    let code = c as u32;
    char_is_scalar(c);
    assert((0xC0u8 | ((code >> 6) & 0x1F) as u8) >= 0x80 && (0xE0u8 | ((code >> 12) & 0x0F) as u8)
        >= 0x80 && (0xF0u8 | ((code >> 18) & 0x7) as u8) >= 0x80) by (bit_vector);
    assert(has_width_1_encoding(code));
}

/// A text whose bytes are all ASCII is one of ASCII characters, byte by
/// character.
pub proof fn lemma_ascii_bytes(text: Seq<char>)
    requires
        forall|i: int| 0 <= i < encode_utf8(text).len() ==> #[trigger] encode_utf8(text)[i] < 0x80,
    ensures
        is_ascii_chars(text),
        encode_utf8(text).len() == text.len(),
        forall|i: int|
            0 <= i < text.len() ==> #[trigger] text[i] as u8 == encode_utf8(text)[i],
    decreases text.len(),
{
    if text.len() > 0 {
        let rest = text.drop_first();
        let bytes = encode_utf8(text);
        assert(bytes[0] == encode_scalar(text[0] as u32)[0]);
        lemma_ascii_scalar(text[0]);
        assert forall|i: int| 0 <= i < encode_utf8(rest).len() implies #[trigger] encode_utf8(
            rest,
        )[i] < 0x80 by {
            assert(bytes[i + 1] == encode_utf8(rest)[i]);
        }
        lemma_ascii_bytes(rest);
        assert forall|i: int| 0 <= i < text.len() implies '\0' <= #[trigger] text[i]
            <= '\u{7f}' by {
            if i > 0 {
                assert(rest[i - 1] == text[i]);
            }
        }
        is_ascii_chars_encode_utf8(text);
    }
}

} // verus!
