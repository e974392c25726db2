//! Text: decimal numbers, lines and white space.
use vstd::prelude::*;

verus! {

/// `String::push`: appends one character to the end.
pub assume_specification[ String::push ](text: &mut String, c: char)
    ensures
        final(text)@ == old(text)@.push(c),
;

/// The character of a decimal digit.
pub open spec fn digit(value: nat) -> char {
    (48 + value) as char
}

/// A number in decimal, without leading zeros.
pub open spec fn decimal(value: nat) -> Seq<char>
    decreases value,
{
    if value < 10 {
        seq![digit(value)]
    } else {
        decimal(value / 10).push(digit(value % 10))
    }
}

/// A number in decimal is what stands before its last digit, and that digit; the digits are the
/// ten characters.
pub proof fn law_decimal_digit_by_digit(value: nat, last: nat)
    requires
        last < 10,
    ensures
        value > 0 ==> decimal(10 * value + last) == decimal(value) + decimal(last),
        decimal(0) == seq!['0'],
        decimal(1) == seq!['1'],
        decimal(2) == seq!['2'],
        decimal(3) == seq!['3'],
        decimal(4) == seq!['4'],
        decimal(5) == seq!['5'],
        decimal(6) == seq!['6'],
        decimal(7) == seq!['7'],
        decimal(8) == seq!['8'],
        decimal(9) == seq!['9'],
{
    if value > 0 {
        let whole = 10 * value + last;
        assert(whole / 10 == value && whole % 10 == last);
        assert(decimal(whole) =~= decimal(value) + decimal(last));
    }
}

/// Two numbers are never written alike, and none starts with a zero but zero itself.
pub proof fn law_decimal_tells_numbers_apart(first: nat, second: nat)
    ensures
        decimal(first) == decimal(second) ==> first == second,
        decimal(first).len() > 0,
        first > 0 ==> decimal(first)[0] != '0',
    decreases first,
{
    if first >= 10 {
        law_decimal_tells_numbers_apart(first / 10, second / 10);
    }
    if second >= 10 {
        lemma_decimal_has_digits(second / 10);
    }
    if decimal(first) == decimal(second) {
        let text = decimal(first);
        assert(text.last() == digit(first % 10));
        assert(text.last() == digit(second % 10));
        lemma_digits_differ(first % 10, second % 10);
        if first >= 10 {
            assert(text.drop_last() =~= decimal(first / 10));
            assert(second >= 10);
            assert(text.drop_last() =~= decimal(second / 10));
        }
    }
}

proof fn lemma_decimal_has_digits(value: nat)
    ensures
        decimal(value).len() > 0,
    decreases value,
{
    if value >= 10 {
        lemma_decimal_has_digits(value / 10);
    }
}

proof fn lemma_digits_differ(first: nat, second: nat)
    requires
        first < 10,
        second < 10,
    ensures
        digit(first) == digit(second) ==> first == second,
{
    assert(digit(first) as u32 == 48 + first);
    assert(digit(second) as u32 == 48 + second);
}

/// Appends a number in decimal.
pub fn push_decimal(text: &mut String, value: u64)
    ensures
        final(text)@ == old(text)@ + decimal(value as nat),
    decreases value,
{
    if value >= 10 {
        push_decimal(text, value / 10);
    }
    let last: u8 = (value % 10) as u8;
    text.push((48 + last) as char);
    proof {
        assert(text@ =~= old(text)@ + decimal(value as nat));
    }
}

/// The character has Unicode's `White_Space` property.
pub open spec fn is_white_space(c: char) -> bool {
    let code = c as u32;
    ||| 0x9 <= code <= 0xd
    ||| code == 0x20
    ||| code == 0x85
    ||| code == 0xa0
    ||| code == 0x1680
    ||| 0x2000 <= code <= 0x200a
    ||| code == 0x2028
    ||| code == 0x2029
    ||| code == 0x202f
    ||| code == 0x205f
    ||| code == 0x3000
}

/// These characters are white space, and no others.
pub proof fn law_white_space_characters(c: char)
    ensures
        is_white_space(c) <==> seq![
            ' ',
            '\t',
            '\n',
            '\r',
            '\u{b}',
            '\u{c}',
            '\u{85}',
            '\u{a0}',
            '\u{1680}',
            '\u{2000}',
            '\u{2001}',
            '\u{2002}',
            '\u{2003}',
            '\u{2004}',
            '\u{2005}',
            '\u{2006}',
            '\u{2007}',
            '\u{2008}',
            '\u{2009}',
            '\u{200a}',
            '\u{2028}',
            '\u{2029}',
            '\u{202f}',
            '\u{205f}',
            '\u{3000}',
        ].contains(c),
{
}

fn white_space(c: char) -> (white: bool)
    ensures
        white == is_white_space(c),
{
    let code: u32 = c as u32;
    (0x9 <= code && code <= 0xd) || code == 0x20 || code == 0x85 || code == 0xa0 || code == 0x1680
        || (0x2000 <= code && code <= 0x200a) || code == 0x2028 || code == 0x2029 || code == 0x202f
        || code == 0x205f || code == 0x3000
}

/// There is nothing but white space in the text.
pub open spec fn blank(text: Seq<char>) -> bool {
    forall|i: int| 0 <= i < text.len() ==> is_white_space(#[trigger] text[i])
}

/// The text without the white space it starts with.
pub open spec fn trim_start(text: Seq<char>) -> Seq<char>
    decreases text.len(),
{
    if text.len() > 0 && is_white_space(text[0]) {
        trim_start(text.drop_first())
    } else {
        text
    }
}

/// The text without the white space it ends with.
pub open spec fn trim_end(text: Seq<char>) -> Seq<char>
    decreases text.len(),
{
    if text.len() > 0 && is_white_space(text.last()) {
        trim_end(text.drop_last())
    } else {
        text
    }
}

/// The text without the white space around it.
pub open spec fn trimmed(text: Seq<char>) -> Seq<char> {
    trim_end(trim_start(text))
}

/// A text is blank exactly if trimming leaves nothing of it.
pub proof fn law_blank_text_trims_to_nothing(text: Seq<char>)
    ensures
        blank(text) <==> trimmed(text).len() == 0,
    decreases text.len(),
{
    if text.len() > 0 {
        if is_white_space(text[0]) {
            law_blank_text_trims_to_nothing(text.drop_first());
            assert(blank(text) <==> blank(text.drop_first())) by {
                assert forall|i: int| blank(text.drop_first()) && 0 <= i < text.len() implies
                    is_white_space(#[trigger] text[i]) by {
                    if i > 0 {
                        assert(text.drop_first()[i - 1] == text[i]);
                    }
                }
                assert forall|i: int| blank(text) && 0 <= i < text.drop_first().len() implies
                    is_white_space(#[trigger] text.drop_first()[i]) by {
                    assert(text.drop_first()[i] == text[i + 1]);
                }
            }
        } else {
            lemma_trim_end_keeps_start(text);
        }
    }
}

proof fn lemma_trim_end_keeps_start(text: Seq<char>)
    requires
        text.len() > 0,
        !is_white_space(text[0]),
    ensures
        trim_end(text).len() > 0,
    decreases text.len(),
{
    if is_white_space(text.last()) {
        lemma_trim_end_keeps_start(text.drop_last());
    }
}

/// What trimming leaves is the stretch of the text that starts and ends with something else than
/// white space and has nothing but white space before and behind it; returned is where it starts.
pub proof fn law_trimmed_is_the_stretch_within_white_space(text: Seq<char>) -> (start: int)
    ensures
        0 <= start <= start + trimmed(text).len() <= text.len(),
        trimmed(text) == text.subrange(start, start + trimmed(text).len()),
        blank(text.take(start)),
        blank(text.skip(start + trimmed(text).len())),
        trimmed(text).len() > 0 ==> !is_white_space(trimmed(text)[0]) && !is_white_space(
            trimmed(text).last(),
        ),
{
    let start = lemma_trim_start(text);
    let inner = trim_start(text);
    lemma_trim_end(inner);
    let length = trimmed(text).len() as int;
    assert(trimmed(text) =~= text.subrange(start, start + length));
    assert forall|i: int| 0 <= i < text.skip(start + length).len() implies is_white_space(
        #[trigger] text.skip(start + length)[i],
    ) by {
        assert(text.skip(start + length)[i] == inner.skip(length)[i]);
    }
    if length > 0 {
        assert(trimmed(text)[0] == inner[0]);
    }
    start
}

proof fn lemma_trim_start(text: Seq<char>) -> (start: int)
    ensures
        0 <= start <= text.len(),
        trim_start(text) == text.skip(start),
        blank(text.take(start)),
        trim_start(text).len() > 0 ==> !is_white_space(trim_start(text)[0]),
    decreases text.len(),
{
    if text.len() > 0 && is_white_space(text[0]) {
        let start = lemma_trim_start(text.drop_first());
        assert(text.drop_first().skip(start) =~= text.skip(start + 1));
        assert forall|i: int| 0 <= i < text.take(start + 1).len() implies is_white_space(
            #[trigger] text.take(start + 1)[i],
        ) by {
            if i > 0 {
                assert(text.take(start + 1)[i] == text.drop_first().take(start)[i - 1]);
            }
        }
        start + 1
    } else {
        assert(text.skip(0) =~= text);
        0
    }
}

proof fn lemma_trim_end(text: Seq<char>)
    ensures
        trim_end(text).len() <= text.len(),
        trim_end(text) == text.take(trim_end(text).len() as int),
        blank(text.skip(trim_end(text).len() as int)),
        trim_end(text).len() > 0 ==> !is_white_space(trim_end(text).last()),
    decreases text.len(),
{
    if text.len() > 0 && is_white_space(text.last()) {
        let before = text.drop_last();
        lemma_trim_end(before);
        let length = trim_end(before).len() as int;
        assert(before.take(length) =~= text.take(length));
        assert forall|i: int| 0 <= i < text.skip(length).len() implies is_white_space(
            #[trigger] text.skip(length)[i],
        ) by {
            if length + i < before.len() {
                assert(text.skip(length)[i] == before.skip(length)[i]);
            }
        }
    } else {
        assert(text.take(text.len() as int) =~= text);
    }
}

/// Whether a text holds nothing but white space.
pub fn is_blank(text: &str) -> (result: bool)
    ensures
        result == blank(text@),
        result <==> (forall|i: int| 0 <= i < text@.len() ==> is_white_space(#[trigger] text@[i])),
{
    for c in it: text.chars()
        invariant
            it.seq() == text@,
            forall|i: int| 0 <= i < it.index() ==> is_white_space(#[trigger] text@[i]),
    {
        if !white_space(c) {
            assert(text@[it.index() as int] == c);
            return false;
        }
    }
    true
}

fn to_chars(text: &str) -> (chars: Vec<char>)
    ensures
        chars@ == text@,
{
    let mut chars: Vec<char> = Vec::new();
    for c in it: text.chars()
        invariant
            it.seq() == text@,
            chars@ == text@.take(it.index() as int),
    {
        chars.push(c);
        assert(chars@ =~= text@.take(it.index() + 1));
    }
    assert(text@.take(text@.len() as int) =~= text@);
    chars
}

/// Appends a text without the white space around it; returns whether anything was left.
pub fn push_trimmed(out: &mut String, text: &str) -> (some: bool)
    ensures
        final(out)@ == old(out)@ + trimmed(text@),
        some == (trimmed(text@).len() > 0),
        some == !blank(text@),
{
    proof {
        law_blank_text_trims_to_nothing(text@);
    }
    let chars = to_chars(text);
    let length = chars.len();
    let mut start: usize = 0;
    assert(text@.skip(0) =~= text@);
    while start < length && white_space(chars[start])
        invariant
            chars@ == text@,
            length == chars@.len(),
            start <= length,
            trim_start(text@) == trim_start(text@.skip(start as int)),
        decreases length - start,
    {
        assert(text@.skip(start as int).drop_first() =~= text@.skip(start + 1));
        start = start + 1;
    }
    let ghost inner = text@.skip(start as int);
    assert(trim_start(text@) == inner);
    let mut end = length;
    assert(inner.take(inner.len() as int) =~= inner);
    while start < end && white_space(chars[end - 1])
        invariant
            chars@ == text@,
            length == chars@.len(),
            start <= end <= length,
            inner == text@.skip(start as int),
            trim_end(inner) == trim_end(inner.take(end - start)),
        decreases end,
    {
        assert(inner.take(end - start).drop_last() =~= inner.take(end - start - 1));
        end = end - 1;
    }
    let ghost kept = inner.take(end - start);
    assert(trimmed(text@) == kept);
    for i in start..end
        invariant
            chars@ == text@,
            length == chars@.len(),
            start <= end <= length,
            kept == text@.skip(start as int).take(end - start),
            out@ == old(out)@ + kept.take(i - start),
    {
        out.push(chars[i]);
        assert(out@ =~= old(out)@ + kept.take(i + 1 - start));
    }
    assert(kept.take(end - start) =~= kept);
    start < end
}

/// Where the first line feed stands, or the length of the text.
pub open spec fn line_end(text: Seq<char>) -> nat
    decreases text.len(),
{
    if text.len() == 0 || text[0] == '\n' {
        0
    } else {
        1 + line_end(text.drop_first())
    }
}

/// A line without the carriage return that belongs to its ending.
pub open spec fn strip_return(line: Seq<char>) -> Seq<char> {
    if line.len() > 0 && line.last() == '\r' {
        line.drop_last()
    } else {
        line
    }
}

/// The lines of a text. A line ends at a line feed, or at a carriage return followed by one; the
/// last ending is optional.
pub open spec fn lines(text: Seq<char>) -> Seq<Seq<char>>
    decreases text.len(),
{
    if text.len() == 0 {
        seq![]
    } else {
        let end = line_end(text);
        if end >= text.len() {
            seq![text]
        } else {
            seq![strip_return(text.take(end as int))] + lines(text.skip(end as int + 1))
        }
    }
}

/// The lines with something in them, each with its number in the text, counted from one.
pub open spec fn numbered_entries(lines: Seq<Seq<char>>) -> Seq<(nat, Seq<char>)>
    decreases lines.len(),
{
    if lines.len() == 0 {
        seq![]
    } else {
        let before = numbered_entries(lines.drop_last());
        if blank(lines.last()) {
            before
        } else {
            before.push((lines.len(), lines.last()))
        }
    }
}

/// A line of a text with its number, counted from one.
#[derive(Debug)]
pub struct TextLine {
    pub number: usize,
    pub text: String,
}

impl View for TextLine {
    type V = (nat, Seq<char>);

    open spec fn view(&self) -> (nat, Seq<char>) {
        (self.number as nat, self.text@)
    }
}

proof fn lemma_line_end(text: Seq<char>, end: int)
    requires
        0 <= end <= text.len(),
        forall|i: int| 0 <= i < end ==> text[i] != '\n',
        end < text.len() ==> text[end] == '\n',
    ensures
        line_end(text) == end,
    decreases end,
{
    if end > 0 {
        assert forall|i: int| 0 <= i < end - 1 implies text.drop_first()[i] != '\n' by {
            assert(text.drop_first()[i] == text[i + 1]);
        }
        lemma_line_end(text.drop_first(), end - 1);
    }
}

/// Appends `line`, numbered `number`, unless it is blank.
fn push_entry(
    entries: &mut Vec<TextLine>,
    number: usize,
    line: String,
    done: Ghost<Seq<Seq<char>>>,
)
    requires
        number == done@.len() + 1,
        old(entries)@.map_values(|entry: TextLine| entry@) == numbered_entries(done@),
    ensures
        final(entries)@.map_values(|entry: TextLine| entry@) == numbered_entries(done@.push(line@)),
{
    proof {
        assert(done@.push(line@).drop_last() =~= done@);
    }
    if !is_blank(line.as_str()) {
        let ghost text = line@;
        entries.push(TextLine { number, text: line });
        assert(entries@.map_values(|entry: TextLine| entry@) =~= old(entries)@.map_values(
            |entry: TextLine| entry@,
        ).push((number as nat, text)));
    }
}

/// The lines of a text that are not blank, each with its number.
pub fn text_entries(text: &str) -> (entries: Vec<TextLine>)
    ensures
        entries@.map_values(|entry: TextLine| entry@) == numbered_entries(lines(text@)),
        forall|i: int|
            0 <= i < entries@.len() ==> {
                &&& 1 <= (#[trigger] entries@[i]).number <= lines(text@).len()
                &&& entries@[i].text@ == lines(text@)[entries@[i].number - 1]
                &&& !blank(entries@[i].text@)
            },
{
    let chars = to_chars(text);
    let length = chars.len();
    let mut entries: Vec<TextLine> = Vec::new();
    let mut line = String::new();
    // A carriage return that was read but is not in `line` yet.
    let mut held = false;
    let mut number: usize = 0;
    let ghost mut start: int = 0;
    let ghost mut done: Seq<Seq<char>> = seq![];
    proof {
        assert(text@.skip(0) =~= text@);
        assert(done + lines(text@) =~= lines(text@));
        assert(entries@.map_values(|entry: TextLine| entry@) =~= numbered_entries(done));
        assert(text@.subrange(0, 0) =~= line@);
    }
    for i in 0..length
        invariant
            chars@ == text@,
            length == chars@.len(),
            0 <= start <= i,
            number == done.len(),
            done.len() <= start,
            lines(text@) == done + lines(text@.skip(start)),
            entries@.map_values(|entry: TextLine| entry@) == numbered_entries(done),
            forall|k: int| start <= k < i ==> text@[k] != '\n',
            text@.subrange(start, i as int) == if held {
                line@.push('\r')
            } else {
                line@
            },
            !held ==> (line@.len() == 0 || line@.last() != '\r'),
    {
        let c = chars[i];
        let ghost before = text@.subrange(start, i as int);
        if c == '\n' {
            proof {
                let rest = text@.skip(start);
                lemma_line_end(rest, i - start);
                assert(rest.take(i - start) =~= before);
                assert(rest.skip(i - start + 1) =~= text@.skip(i + 1));
                assert(strip_return(before) =~= line@);
                assert(done + (seq![line@] + lines(text@.skip(i + 1))) =~= done.push(line@) + lines(
                    text@.skip(i + 1),
                ));
            }
            push_entry(&mut entries, number + 1, line, Ghost(done));
            proof {
                done = done.push(strip_return(before));
                start = i + 1;
                assert(text@.subrange(start, i + 1) =~= Seq::<char>::empty());
            }
            line = String::new();
            held = false;
            number = number + 1;
        } else {
            if held {
                line.push('\r');
            }
            held = c == '\r';
            if !held {
                line.push(c);
            }
            assert(text@.subrange(start, i + 1) =~= before.push(c));
        }
    }
    let ghost rest = text@.skip(start);
    assert(rest =~= text@.subrange(start, length as int));
    if held {
        line.push('\r');
    }
    if !line.as_str().is_empty() {
        proof {
            lemma_line_end(rest, rest.len() as int);
            assert(done + seq![rest] =~= done.push(rest));
        }
        push_entry(&mut entries, number + 1, line, Ghost(done));
    } else {
        assert(done + lines(rest) =~= done);
    }
    proof {
        assert forall|i: int| 0 <= i < entries@.len() implies {
            &&& 1 <= (#[trigger] entries@[i]).number <= lines(text@).len()
            &&& entries@[i].text@ == lines(text@)[entries@[i].number - 1]
            &&& !blank(entries@[i].text@)
        } by {
            assert(entries@.map_values(|entry: TextLine| entry@)[i] == entries@[i]@);
            law_entries_carry_their_line_numbers(lines(text@), i);
        }
    }
    entries
}

/// The lines with something in them, in order.
pub open spec fn entry_texts(lines: Seq<Seq<char>>) -> Seq<Seq<char>> {
    numbered_entries(lines).map_values(|entry: (nat, Seq<char>)| entry.1)
}

/// The entries of a text are its lines without the blank ones: blank lines count for the numbers
/// of the others and for nothing else.
pub proof fn law_entries_are_the_lines_not_blank(lines: Seq<Seq<char>>)
    ensures
        entry_texts(lines) == lines.filter(|line: Seq<char>| !blank(line)),
    decreases lines.len(),
{
    reveal(Seq::filter);
    if lines.len() > 0 {
        law_entries_are_the_lines_not_blank(lines.drop_last());
        if !blank(lines.last()) {
            assert(entry_texts(lines) =~= entry_texts(lines.drop_last()).push(lines.last()));
        }
    } else {
        assert(entry_texts(lines) =~= Seq::<Seq<char>>::empty());
    }
}

proof fn lemma_lines_by_parts(first: Seq<char>, second: Seq<char>)
    requires
        first.len() == 0 || first.last() == '\n',
    ensures
        lines(first + second) == lines(first) + lines(second),
    decreases first.len(),
{
    let whole = first + second;
    if first.len() == 0 {
        assert(whole =~= second);
        assert(lines(first) + lines(second) =~= lines(second));
    } else {
        let end = lemma_first_line_feed(first);
        lemma_line_end(first, end);
        assert forall|i: int| 0 <= i < end implies whole[i] != '\n' by {
            assert(whole[i] == first[i]);
        }
        assert(whole[end] == first[end]);
        lemma_line_end(whole, end);
        let rest = first.skip(end + 1);
        assert(whole.take(end) =~= first.take(end));
        assert(whole.skip(end + 1) =~= rest + second);
        if rest.len() > 0 {
            assert(rest.last() == first.last());
        }
        lemma_lines_by_parts(rest, second);
        let line = seq![strip_return(first.take(end))];
        assert(line + (lines(rest) + lines(second)) =~= (line + lines(rest)) + lines(second));
    }
}

/// Finds the first line feed of a text that ends with one.
proof fn lemma_first_line_feed(text: Seq<char>) -> (end: int)
    requires
        text.len() > 0,
        text.last() == '\n',
    ensures
        0 <= end < text.len(),
        text[end] == '\n',
        forall|i: int| 0 <= i < end ==> text[i] != '\n',
    decreases text.len(),
{
    if text[0] == '\n' {
        0
    } else {
        let rest = text.drop_first();
        assert(rest.last() == text.last());
        let end = lemma_first_line_feed(rest);
        assert forall|i: int| 0 <= i < end + 1 implies text[i] != '\n' by {
            if i > 0 {
                assert(rest[i - 1] == text[i]);
            }
        }
        end + 1
    }
}

proof fn lemma_blank_lines(text: Seq<char>)
    requires
        blank(text),
    ensures
        entry_texts(lines(text)) == Seq::<Seq<char>>::empty(),
{
    lemma_lines_of_blank(text);
    lemma_no_entries(lines(text));
}

proof fn lemma_lines_of_blank(text: Seq<char>)
    requires
        blank(text),
    ensures
        forall|i: int| 0 <= i < lines(text).len() ==> blank(#[trigger] lines(text)[i]),
    decreases text.len(),
{
    if text.len() > 0 {
        let end = line_end(text);
        if end < text.len() {
            lemma_lines_of_blank(text.skip(end as int + 1));
            let line = strip_return(text.take(end as int));
            assert(blank(line));
            assert forall|i: int| 0 <= i < lines(text).len() implies blank(
                #[trigger] lines(text)[i],
            ) by {
                if i > 0 {
                    assert(lines(text)[i] == lines(text.skip(end as int + 1))[i - 1]);
                }
            }
        }
    }
}

proof fn lemma_no_entries(lines: Seq<Seq<char>>)
    requires
        forall|i: int| 0 <= i < lines.len() ==> blank(#[trigger] lines[i]),
    ensures
        entry_texts(lines) == Seq::<Seq<char>>::empty(),
    decreases lines.len(),
{
    if lines.len() > 0 {
        assert forall|i: int| 0 <= i < lines.drop_last().len() implies blank(
            #[trigger] lines.drop_last()[i],
        ) by {
            assert(lines.drop_last()[i] == lines[i]);
        }
        lemma_no_entries(lines.drop_last());
        assert(lines.last() == lines[lines.len() - 1]);
    }
    assert(entry_texts(lines) =~= Seq::<Seq<char>>::empty());
}

/// A text that ends with a line feed has its lines whatever follows, and what follows has its own.
pub proof fn law_lines_by_parts(first: Seq<char>, second: Seq<char>)
    requires
        first.len() == 0 || first.last() == '\n',
    ensures
        lines(first + second) == lines(first) + lines(second),
{
    lemma_lines_by_parts(first, second);
}

/// A run without a line feed is one line, and so it is with an ending: a line feed, or a carriage
/// return before one. Without an ending an empty run is no line, and a carriage return belongs to
/// the line.
pub proof fn law_one_line(line: Seq<char>)
    requires
        !line.contains('\n'),
    ensures
        line.len() > 0 ==> lines(line) == seq![line],
        lines(Seq::empty()) == Seq::<Seq<char>>::empty(),
        line.len() == 0 || line.last() != '\r' ==> lines(line.push('\n')) == seq![line],
        lines(line.push('\r').push('\n')) == seq![line],
{
    assert forall|i: int| 0 <= i < line.len() implies line[i] != '\n' by {}
    lemma_line_end(line, line.len() as int);
    let ended = line.push('\n');
    let length = line.len() as int;
    lemma_line_end(ended, length);
    assert(ended.take(length) =~= line);
    assert(ended.skip(length + 1) =~= Seq::<char>::empty());
    let returned = line.push('\r').push('\n');
    lemma_line_end(returned, length + 1);
    assert(returned.take(length + 1) =~= line.push('\r'));
    assert(returned.skip(length + 2) =~= Seq::<char>::empty());
    assert(strip_return(line.push('\r')) =~= line);
    assert(seq![line] + lines(Seq::empty()) =~= seq![line]);
}

/// Every entry is the line that its number says, counted from one, and has something in it; the
/// numbers rise.
pub proof fn law_entries_carry_their_line_numbers(lines: Seq<Seq<char>>, i: int)
    requires
        0 <= i < numbered_entries(lines).len(),
    ensures
        ({
            let (number, text) = numbered_entries(lines)[i];
            &&& 1 <= number <= lines.len()
            &&& lines[number - 1] == text
            &&& !blank(text)
            &&& i > 0 ==> numbered_entries(lines)[i - 1].0 < number
        }),
    decreases lines.len(),
{
    let before = numbered_entries(lines.drop_last());
    if i < before.len() {
        law_entries_carry_their_line_numbers(lines.drop_last(), i);
    } else if i > 0 {
        law_entries_carry_their_line_numbers(lines.drop_last(), i - 1);
    }
}

/// White space put between the lines of a text, whole lines of it, adds no entry and takes none
/// away.
pub proof fn law_blank_lines_add_no_entry(
    first: Seq<char>,
    between: Seq<char>,
    second: Seq<char>,
)
    requires
        first.len() == 0 || first.last() == '\n',
        blank(between),
        between.len() == 0 || between.last() == '\n' || second.len() == 0,
    ensures
        entry_texts(lines(first + between + second)) == entry_texts(lines(first + second)),
{
    let keep = |line: Seq<char>| !blank(line);
    lemma_lines_by_parts(first, second);
    lemma_lines_by_parts(first, between + second);
    assert(first + between + second =~= first + (between + second));
    if between.len() == 0 || between.last() == '\n' {
        lemma_lines_by_parts(between, second);
    } else {
        assert(between + second =~= between);
        assert(lines(between) + lines(second) =~= lines(between));
    }
    lemma_blank_lines(between);
    law_entries_are_the_lines_not_blank(lines(between));
    law_entries_are_the_lines_not_blank(lines(first + between + second));
    law_entries_are_the_lines_not_blank(lines(first + second));
    Seq::filter_distributes_over_add(lines(between), lines(second), keep);
    Seq::filter_distributes_over_add(lines(first), lines(between) + lines(second), keep);
    Seq::filter_distributes_over_add(lines(first), lines(second), keep);
    assert(lines(between).filter(keep) + lines(second).filter(keep) =~= lines(second).filter(keep));
}

} // verus!
