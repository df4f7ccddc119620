//! The names of segment files: `wal-{id}` while a segment is in use and
//! `wal-{id}-cp` once it has been checkpointed and waits to be reused.
use vstd::prelude::*;

verus! {

/// What the name of a segment file tells about the segment.
#[derive(Clone, Copy, Debug, PartialEq, Eq, Structural)]
pub struct SegmentName {
    /// The id that the name holds.
    pub entry_id: u64,
    /// Whether the name says that the segment has been checkpointed.
    pub has_checkpointed: bool,
}

/// The decimal digit of value `d`.
pub open spec fn digit(d: int) -> char {
    (48 + d) as char
}

/// `n` in decimal, without leading zeros.
pub open spec fn decimal(n: nat) -> Seq<char>
    decreases n,
{
    if n < 10 {
        seq![digit(n as int)]
    } else {
        decimal(n / 10).push(digit((n % 10) as int))
    }
}

/// Whether `s` consists of decimal digits only.
pub open spec fn all_digits(s: Seq<char>) -> bool {
    forall|i: int| 0 <= i < s.len() ==> '0' <= #[trigger] s[i] <= '9'
}

/// The number that the digits of `s` stand for.
pub open spec fn digits_value(s: Seq<char>) -> int
    decreases s.len(),
{
    if s.len() == 0 {
        0
    } else {
        digits_value(s.drop_last()) * 10 + (s.last() as int - '0' as int)
    }
}

/// The number that `s` spells: at least one digit and nothing else, of a value
/// that a `u64` can hold.
pub open spec fn number_in(s: Seq<char>) -> Option<u64> {
    if s.len() > 0 && all_digits(s) && digits_value(s) <= u64::MAX {
        Some(digits_value(s) as u64)
    } else {
        None
    }
}

/// The fields of `s` between its dashes; one field where there is no dash.
pub open spec fn dash_fields(s: Seq<char>) -> Seq<Seq<char>>
    decreases s.len(),
{
    if s.len() == 0 {
        seq![Seq::<char>::empty()]
    } else {
        let fields = dash_fields(s.drop_last());
        if s.last() == '-' {
            fields.push(Seq::<char>::empty())
        } else {
            fields.drop_last().push(fields.last().push(s.last()))
        }
    }
}

/// What `name` says if it is the name of a segment file, that is, if it matches
/// `wal-[0-9]+(-cp)?` with a number that a `u64` can hold: its fields are `wal`,
/// the number, and `cp` or nothing. The segment has been checkpointed exactly if
/// there is the `cp`.
pub open spec fn segment_name_in(name: Seq<char>) -> Option<SegmentName> {
    let fields = dash_fields(name);
    if fields[0] == seq!['w', 'a', 'l'] && (fields.len() == 2 || fields.len() == 3 && fields[2]
        == seq!['c', 'p']) && number_in(fields[1]) is Some {
        Some(
            SegmentName {
                entry_id: number_in(fields[1])->0,
                has_checkpointed: fields.len() == 3,
            },
        )
    } else {
        None
    }
}

/// The name of the segment file that starts with entry `id`.
pub open spec fn segment_file_name_of(id: u64) -> Seq<char> {
    seq!['w', 'a', 'l', '-'] + decimal(id as nat)
}

/// The name that the segment file `name` has once it has been checkpointed.
pub open spec fn checkpointed_file_name_of(name: Seq<char>) -> Seq<char> {
    name + seq!['-', 'c', 'p']
}

proof fn lemma_dash_fields_len(s: Seq<char>)
    ensures
        dash_fields(s).len() >= 1,
    decreases s.len(),
{
    if s.len() > 0 {
        lemma_dash_fields_len(s.drop_last());
    }
}

proof fn lemma_digits_value_nonneg(s: Seq<char>)
    requires
        all_digits(s),
    ensures
        digits_value(s) >= 0,
    decreases s.len(),
{
    if s.len() > 0 {
        assert(all_digits(s.drop_last()));
        assert('0' <= s[s.len() - 1] <= '9');
        lemma_digits_value_nonneg(s.drop_last());
    }
}

/// A prefix of a digit string stands for no larger a number.
proof fn lemma_digits_value_prefix(s: Seq<char>, n: int)
    requires
        all_digits(s),
        0 <= n <= s.len(),
    ensures
        digits_value(s.subrange(0, n)) <= digits_value(s),
    decreases s.len(),
{
    if n == s.len() {
        assert(s.subrange(0, n) =~= s);
    } else {
        let front = s.drop_last();
        assert(all_digits(front));
        assert('0' <= s[s.len() - 1] <= '9');
        lemma_digits_value_prefix(front, n);
        lemma_digits_value_nonneg(front);
        assert(front.subrange(0, n) =~= s.subrange(0, n));
    }
}

/// The characters of `s`, one by one.
fn chars_of(s: &str) -> (chars: Vec<char>)
    ensures
        chars@ == s@,
{
    let mut chars: Vec<char> = Vec::new();
    for c in iter: s.chars()
        invariant
            iter.seq() == s@,
            chars@ == s@.subrange(0, iter.index()),
    {
        chars.push(c);
    }
    chars
}

/// Splits `chars` at its dashes.
fn split_at_dashes(chars: &Vec<char>) -> (fields: Vec<Vec<char>>)
    ensures
        fields@.len() == dash_fields(chars@).len(),
        forall|i: int| 0 <= i < fields@.len() ==> (#[trigger] fields@[i])@ == dash_fields(chars@)[i],
{
    let mut fields: Vec<Vec<char>> = Vec::new();
    let mut field: Vec<char> = Vec::new();
    let mut i: usize = 0;
    proof {
        assert(chars@.subrange(0, 0) =~= Seq::<char>::empty());
    }
    while i < chars.len()
        invariant
            i <= chars@.len(),
            fields@.len() + 1 == dash_fields(chars@.subrange(0, i as int)).len(),
            forall|j: int|
                0 <= j < fields@.len() ==> (#[trigger] fields@[j])@ == dash_fields(
                    chars@.subrange(0, i as int),
                )[j],
            field@ == dash_fields(chars@.subrange(0, i as int)).last(),
        decreases chars@.len() - i,
    {
        proof {
            assert(chars@.subrange(0, i + 1).drop_last() =~= chars@.subrange(0, i as int));
        }
        if chars[i] == '-' {
            fields.push(field);
            field = Vec::new();
        } else {
            field.push(chars[i]);
        }
        i += 1;
    }
    proof {
        assert(chars@.subrange(0, i as int) =~= chars@);
    }
    fields.push(field);
    fields
}

/// The number that `chars` spells.
fn parse_number(chars: &Vec<char>) -> (number: Option<u64>)
    ensures
        number == number_in(chars@),
{
    if chars.len() == 0 {
        return None;
    }
    let mut value: u64 = 0;
    let mut i: usize = 0;
    proof {
        assert(chars@.subrange(0, 0) =~= Seq::<char>::empty());
    }
    while i < chars.len()
        invariant
            i <= chars@.len(),
            all_digits(chars@.subrange(0, i as int)),
            value == digits_value(chars@.subrange(0, i as int)),
        decreases chars@.len() - i,
    {
        let c: char = chars[i];
        let ghost read = chars@.subrange(0, i + 1);
        proof {
            assert(read.drop_last() =~= chars@.subrange(0, i as int));
            assert(read.last() == c);
        }
        if c < '0' || c > '9' {
            return None;
        }
        let d: u64 = (c as u32 - '0' as u32) as u64;
        proof {
            assert forall|j: int| 0 <= j < read.len() implies '0' <= #[trigger] read[j] <= '9' by {
                if j < read.len() - 1 {
                    assert(read[j] == chars@.subrange(0, i as int)[j]);
                }
            }
            assert(digits_value(read) == value * 10 + d);
            if value * 10 + d > u64::MAX && all_digits(chars@) {
                lemma_digits_value_prefix(chars@, i + 1);
            }
        }
        if value > u64::MAX / 10 {
            return None;
        }
        let tenfold: u64 = value * 10;
        if tenfold > u64::MAX - d {
            return None;
        }
        value = tenfold + d;
        i += 1;
    }
    proof {
        assert(chars@.subrange(0, i as int) =~= chars@);
    }
    Some(value)
}

/// Whether `chars` are the characters of `text`.
fn spells(chars: &Vec<char>, text: &str) -> (same: bool)
    ensures
        same == (chars@ == text@),
{
    let other: Vec<char> = chars_of(text);
    if chars.len() != other.len() {
        return false;
    }
    let mut i: usize = 0;
    while i < chars.len()
        invariant
            i <= chars@.len(),
            chars@.len() == other@.len(),
            other@ == text@,
            forall|j: int| 0 <= j < i ==> chars@[j] == other@[j],
        decreases chars@.len() - i,
    {
        if chars[i] != other[i] {
            return false;
        }
        i += 1;
    }
    proof {
        assert(chars@ =~= other@);
    }
    true
}

/// Reads the name of a file in the log's directory. Files that are not
/// segments give `None`.
pub fn parse_segment_name(name: &str) -> (parsed: Option<SegmentName>)
    ensures
        parsed == segment_name_in(name@),
{
    let chars: Vec<char> = chars_of(name);
    let fields: Vec<Vec<char>> = split_at_dashes(&chars);
    proof {
        lemma_dash_fields_len(name@);
        reveal_strlit("wal");
        reveal_strlit("cp");
        assert("wal"@ =~= seq!['w', 'a', 'l']);
        assert("cp"@ =~= seq!['c', 'p']);
    }
    if fields.len() < 2 || fields.len() > 3 || !spells(&fields[0], "wal") {
        return None;
    }
    let has_checkpointed: bool = fields.len() == 3;
    if has_checkpointed && !spells(&fields[2], "cp") {
        return None;
    }
    match parse_number(&fields[1]) {
        Some(entry_id) => Some(SegmentName { entry_id, has_checkpointed }),
        None => None,
    }
}

/// The digit of value `d`, as text.
fn digit_text(d: u64) -> (text: &'static str)
    requires
        d < 10,
    ensures
        text@ == seq![digit(d as int)],
{
    proof {
        reveal_strlit("0");
        reveal_strlit("1");
        reveal_strlit("2");
        reveal_strlit("3");
        reveal_strlit("4");
        reveal_strlit("5");
        reveal_strlit("6");
        reveal_strlit("7");
        reveal_strlit("8");
        reveal_strlit("9");
    }
    let text = match d {
        0 => "0",
        1 => "1",
        2 => "2",
        3 => "3",
        4 => "4",
        5 => "5",
        6 => "6",
        7 => "7",
        8 => "8",
        _ => "9",
    };
    assert(text@ =~= seq![digit(d as int)]);
    text
}

/// Appends `n` in decimal to `text`.
fn push_decimal(text: &mut String, n: u64)
    ensures
        final(text)@ == old(text)@ + decimal(n as nat),
    decreases n,
{
    if n >= 10 {
        push_decimal(text, n / 10);
    }
    text.append(digit_text(n % 10));
    proof {
        assert(text@ =~= old(text)@ + decimal(n as nat));
    }
}

/// The name of the segment file that holds the entries from `id` on.
pub fn segment_file_name(id: u64) -> (name: String)
    ensures
        name@ == segment_file_name_of(id),
        name@ == seq!['w', 'a', 'l', '-'] + decimal(id as nat),
{
    let mut name = String::new();
    name.append("wal-");
    push_decimal(&mut name, id);
    proof {
        reveal_strlit("wal-");
        assert(name@ =~= segment_file_name_of(id));
    }
    name
}

/// The name that the segment file `name` is given once its entries have been
/// checkpointed.
pub fn checkpointed_file_name(name: &str) -> (checkpointed: String)
    ensures
        checkpointed@ == checkpointed_file_name_of(name@),
        checkpointed@ == name@ + seq!['-', 'c', 'p'],
{
    let mut checkpointed = String::new();
    checkpointed.append(name);
    checkpointed.append("-cp");
    proof {
        reveal_strlit("-cp");
        assert(checkpointed@ =~= checkpointed_file_name_of(name@));
    }
    checkpointed
}

proof fn lemma_decimal_reads_back(n: nat)
    ensures
        decimal(n).len() > 0,
        all_digits(decimal(n)),
        digits_value(decimal(n)) == n,
    decreases n,
{
    let s = decimal(n);
    if n < 10 {
        assert(s.drop_last() =~= Seq::<char>::empty());
        assert(digits_value(s.drop_last()) == 0);
    } else {
        lemma_decimal_reads_back(n / 10);
        let front = decimal(n / 10);
        assert(s.drop_last() =~= front);
        assert forall|i: int| 0 <= i < s.len() implies '0' <= #[trigger] s[i] <= '9' by {
            if i < front.len() {
                assert(s[i] == front[i]);
            }
        }
    }
}

/// Text without a dash is a single field.
proof fn lemma_single_field(s: Seq<char>)
    requires
        !s.contains('-'),
    ensures
        dash_fields(s) == seq![s],
    decreases s.len(),
{
    if s.len() > 0 {
        let front = s.drop_last();
        assert forall|i: int| 0 <= i < front.len() implies front[i] != '-' by {
            assert(s.contains(s[i]));
        }
        lemma_single_field(front);
        assert(s.contains(s.last()));
        assert(front.push(s.last()) =~= s);
    } else {
        assert(s =~= Seq::<char>::empty());
    }
    assert(dash_fields(s) =~= seq![s]);
}

/// A dash and dashless text behind it add one field.
proof fn lemma_append_field(s: Seq<char>, field: Seq<char>)
    requires
        !field.contains('-'),
    ensures
        dash_fields(s.push('-') + field) == dash_fields(s).push(field),
    decreases field.len(),
{
    let whole = s.push('-') + field;
    if field.len() == 0 {
        assert(field =~= Seq::<char>::empty());
        assert(whole.drop_last() =~= s);
        assert(dash_fields(whole) =~= dash_fields(s).push(field));
    } else {
        let front = field.drop_last();
        assert forall|i: int| 0 <= i < front.len() implies front[i] != '-' by {
            assert(field.contains(field[i]));
        }
        lemma_append_field(s, front);
        assert(field.contains(field.last()));
        assert(whole.drop_last() =~= s.push('-') + front);
        assert(whole.last() == field.last());
        assert(dash_fields(s).push(front).drop_last() =~= dash_fields(s));
        assert(front.push(field.last()) =~= field);
        assert(dash_fields(whole) =~= dash_fields(s).push(field));
    }
}

/// A segment file that was in use keeps its id when it is renamed after its
/// checkpoint, and is read back as checkpointed.
pub proof fn law_checkpointed_name_reads_back(name: Seq<char>)
    requires
        segment_name_in(name) is Some,
        !segment_name_in(name)->0.has_checkpointed,
    ensures
        segment_name_in(checkpointed_file_name_of(name)) == Some(
            SegmentName { entry_id: segment_name_in(name)->0.entry_id, has_checkpointed: true },
        ),
{
    let cp = seq!['c', 'p'];
    assert(checkpointed_file_name_of(name) =~= name.push('-') + cp);
    lemma_append_field(name, cp);
}

/// `wal-` and digits, of a value that a `u64` can hold, is the name of a segment
/// file in use, and that of a checkpointed one with `-cp` behind it.
pub proof fn law_the_pattern_makes_segment_names(digits: Seq<char>)
    requires
        number_in(digits) is Some,
    ensures
        segment_name_in(seq!['w', 'a', 'l', '-'] + digits) == Some(
            SegmentName { entry_id: number_in(digits)->0, has_checkpointed: false },
        ),
        segment_name_in(checkpointed_file_name_of(seq!['w', 'a', 'l', '-'] + digits)) == Some(
            SegmentName { entry_id: number_in(digits)->0, has_checkpointed: true },
        ),
{
    let wal = seq!['w', 'a', 'l'];
    assert forall|i: int| 0 <= i < digits.len() implies digits[i] != '-' by {
        assert('0' <= digits[i] <= '9');
    }
    lemma_single_field(wal);
    lemma_append_field(wal, digits);
    let name = seq!['w', 'a', 'l', '-'] + digits;
    assert(name =~= wal.push('-') + digits);
    assert(dash_fields(name) =~= seq![wal, digits]);
    law_checkpointed_name_reads_back(name);
}

/// The name made for a segment is read back as that segment's, in use.
pub proof fn law_segment_name_reads_back(id: u64)
    ensures
        segment_name_in(segment_file_name_of(id)) == Some(
            SegmentName { entry_id: id, has_checkpointed: false },
        ),
{
    lemma_decimal_reads_back(id as nat);
    law_the_pattern_makes_segment_names(decimal(id as nat));
}

/// The checkpointed name of a segment made here is read back with its id.
pub proof fn law_checkpointed_segment_name_reads_back(id: u64)
    ensures
        segment_name_in(checkpointed_file_name_of(segment_file_name_of(id))) == Some(
            SegmentName { entry_id: id, has_checkpointed: true },
        ),
{
    law_segment_name_reads_back(id);
    law_checkpointed_name_reads_back(segment_file_name_of(id));
}

/// Segments with different ids have different names, and no segment in use has
/// the name of a checkpointed one.
pub proof fn law_segment_names_are_distinct(a: u64, b: u64)
    ensures
        segment_file_name_of(a) == segment_file_name_of(b) <==> a == b,
        segment_file_name_of(a) != checkpointed_file_name_of(segment_file_name_of(b)),
{
    law_segment_name_reads_back(a);
    law_segment_name_reads_back(b);
    law_checkpointed_segment_name_reads_back(b);
}

/// Text of several fields is that of all but the last, a dash, and the last,
/// which has no dash.
proof fn lemma_split_off_last_field(s: Seq<char>) -> (front: Seq<char>)
    requires
        dash_fields(s).len() > 1,
    ensures
        s == front.push('-') + dash_fields(s).last(),
        dash_fields(front) == dash_fields(s).drop_last(),
    decreases s.len(),
{
    let shorter = s.drop_last();
    lemma_dash_fields_len(shorter);
    if s.last() == '-' {
        assert(s =~= shorter.push('-') + Seq::<char>::empty());
        assert(dash_fields(s).drop_last() =~= dash_fields(shorter));
        shorter
    } else {
        let front = lemma_split_off_last_field(shorter);
        assert(s =~= shorter.push(s.last()));
        assert(dash_fields(s).last() == dash_fields(shorter).last().push(s.last()));
        assert(s =~= front.push('-') + dash_fields(s).last());
        assert(dash_fields(s).drop_last() =~= dash_fields(shorter).drop_last());
        front
    }
}

proof fn lemma_only_field(s: Seq<char>)
    requires
        dash_fields(s).len() == 1,
    ensures
        dash_fields(s)[0] == s,
    decreases s.len(),
{
    if s.len() > 0 {
        lemma_dash_fields_len(s.drop_last());
        lemma_only_field(s.drop_last());
        assert(s.drop_last().push(s.last()) =~= s);
    } else {
        assert(s =~= Seq::<char>::empty());
    }
}

/// The name of a segment file is `wal-` and digits, with `-cp` behind them if the
/// segment has been checkpointed.
pub proof fn law_segment_names_match_the_pattern(name: Seq<char>)
    requires
        segment_name_in(name) is Some,
    ensures
        exists|digits: Seq<char>| #[trigger]
            number_in(digits) == Some(segment_name_in(name)->0.entry_id) && name == (
            if segment_name_in(name)->0.has_checkpointed {
                checkpointed_file_name_of(seq!['w', 'a', 'l', '-'] + digits)
            } else {
                seq!['w', 'a', 'l', '-'] + digits
            }),
{
    let digits = dash_fields(name)[1];
    let in_use = if dash_fields(name).len() == 3 {
        lemma_split_off_last_field(name)
    } else {
        name
    };
    let wal = lemma_split_off_last_field(in_use);
    lemma_only_field(wal);
    assert(in_use =~= seq!['w', 'a', 'l', '-'] + digits);
    if dash_fields(name).len() == 3 {
        assert(name =~= checkpointed_file_name_of(in_use));
    }
    assert(number_in(digits) == Some(segment_name_in(name)->0.entry_id));
}

/// The number of a text with one more character: with a digit of value `d` it is
/// ten times the number before, plus `d`, as long as a `u64` can hold that. No
/// other character can stand in a number, a number has at least one digit, and
/// what is none does not become one by adding a character.
pub proof fn law_numbers_are_read_digit_by_digit(s: Seq<char>, c: char)
    ensures
        number_in(Seq::empty()) is None,
        !('0' <= c <= '9') ==> number_in(s.push(c)) is None,
        s.len() == 0 && '0' <= c <= '9' ==> number_in(s.push(c)) is Some && number_in(s.push(c))->0
            == c as int - '0' as int,
        s.len() > 0 && number_in(s) is None ==> number_in(s.push(c)) is None,
        s.len() > 0 && number_in(s) is Some && '0' <= c <= '9' ==> {
            let value = 10 * number_in(s)->0 + (c as int - '0' as int);
            &&& number_in(s.push(c)) is Some <==> value <= u64::MAX
            &&& number_in(s.push(c)) is Some ==> number_in(s.push(c))->0 == value
        },
{
    let longer = s.push(c);
    assert(longer.drop_last() =~= s);
    assert(longer.last() == c);
    if all_digits(longer) {
        assert(longer[s.len() as int] == c);
        assert forall|i: int| 0 <= i < s.len() implies '0' <= #[trigger] s[i] <= '9' by {
            assert(longer[i] == s[i]);
        }
        lemma_digits_value_nonneg(s);
        lemma_digits_value_nonneg(longer);
    }
    if all_digits(s) && '0' <= c <= '9' {
        assert forall|i: int| 0 <= i < longer.len() implies '0' <= #[trigger] longer[i] <= '9' by {
            if i < s.len() {
                assert(longer[i] == s[i]);
            }
        }
        lemma_digits_value_nonneg(s);
    }
    if s.len() == 0 {
        assert(s =~= Seq::<char>::empty());
    }
}

proof fn lemma_leading_zero(s: Seq<char>)
    ensures
        digits_value(seq!['0'] + s) == digits_value(s),
    decreases s.len(),
{
    let padded = seq!['0'] + s;
    if s.len() > 0 {
        lemma_leading_zero(s.drop_last());
        assert(padded.drop_last() =~= seq!['0'] + s.drop_last());
        assert(padded.last() == s.last());
    } else {
        assert(padded.drop_last() =~= Seq::<char>::empty());
        assert(digits_value(padded.drop_last()) == 0);
    }
}

/// A leading zero does not change a number.
pub proof fn law_leading_zero_does_not_matter(s: Seq<char>)
    requires
        s.len() > 0,
    ensures
        number_in(seq!['0'] + s) == number_in(s),
{
    let padded = seq!['0'] + s;
    lemma_leading_zero(s);
    if all_digits(s) {
        assert forall|i: int| 0 <= i < padded.len() implies '0' <= #[trigger] padded[i] <= '9' by {
            if i > 0 {
                assert(padded[i] == s[i - 1]);
            }
        }
    }
    if all_digits(padded) {
        assert forall|i: int| 0 <= i < s.len() implies '0' <= #[trigger] s[i] <= '9' by {
            assert(padded[i + 1] == s[i]);
        }
    }
}

/// The decimal form of a number is read back as the number, and has no leading
/// zero but for that of 0 itself.
pub proof fn law_decimal_reads_back(n: u64)
    ensures
        number_in(decimal(n as nat)) == Some(n),
        decimal(n as nat).len() > 0,
        decimal(n as nat)[0] == '0' ==> n == 0 && decimal(n as nat).len() == 1,
    decreases n,
{
    lemma_decimal_reads_back(n as nat);
    if n >= 10 {
        law_decimal_reads_back(n / 10);
    }
}

/// A name is that of a segment file exactly if it is `wal-` and a number, with
/// `-cp` behind them or not. The number is the id, and the segment has been
/// checkpointed exactly if there is the `-cp`.
pub proof fn law_segment_names_are_exactly_those_of_the_pattern(
    name: Seq<char>,
    entry_id: u64,
    has_checkpointed: bool,
)
    ensures
        segment_name_in(name) == Some(SegmentName { entry_id, has_checkpointed }) <==> (exists|
            digits: Seq<char>,
        | #[trigger]
            number_in(digits) == Some(entry_id) && name == (if has_checkpointed {
                seq!['w', 'a', 'l', '-'] + digits + seq!['-', 'c', 'p']
            } else {
                seq!['w', 'a', 'l', '-'] + digits
            })),
{
    if segment_name_in(name) == Some(SegmentName { entry_id, has_checkpointed }) {
        law_segment_names_match_the_pattern(name);
    }
    assert forall|digits: Seq<char>| #[trigger]
        number_in(digits) == Some(entry_id) && name == (if has_checkpointed {
            seq!['w', 'a', 'l', '-'] + digits + seq!['-', 'c', 'p']
        } else {
            seq!['w', 'a', 'l', '-'] + digits
        }) implies segment_name_in(name) == Some(SegmentName { entry_id, has_checkpointed }) by {
        law_the_pattern_makes_segment_names(digits);
    }
}

/// Segments made here are called `wal-` and their id, and a checkpointed segment
/// has `-cp` behind the name it had.
pub proof fn law_names_are_made_of_the_id(id: u64, name: Seq<char>)
    ensures
        segment_file_name_of(id) == seq!['w', 'a', 'l', '-'] + decimal(id as nat),
        checkpointed_file_name_of(name) == name + seq!['-', 'c', 'p'],
{
}

} // verus!
