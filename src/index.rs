//! Reading the published index: its records, and which documents still
//! have to be fetched.
use vstd::prelude::*;
use crate::resolve::{digit_value, digits_value, is_digit, path_of, Rfc};
use crate::text::{
    chars_of, contains, find, lemma_find_from_bounds, occurs_at, replace, replace_from, rfind,
    rfind_spec, split, split_from, string_of,
};

verus! {

#[verifier::external_type_specification]
#[verifier::external_body]
pub struct ExRegexError(regex::Error);

/// The line of tildes after which the numbered records begin.
pub const SEPARATOR: &'static str =
    "~~~~~~~~~~~~~~~~~~~~~~~~~~~~~~~~~~~~~~~~~~~~~~~~~~~~~~~~~~~~~~~~~~~~~~~~~~~~~~~~";

/// Records are separated by an empty line.
pub const BLANK_LINE: &'static str = "\n\n";

/// Marks a number that was reserved but never published.
pub const NOT_ISSUED: &'static str = "Not Issued.";

/// A wrapped line continues after a line break and five spaces.
pub const CONTINUATION: &'static str = "\n     ";

pub const JOINER: &'static str = " ";

/// A record begins with a four-digit document number.
pub const NUMBER_PREFIX: &'static str = r"^[0-9]{4}";

/// A record lists a plain-text form among its formats.
pub const TEXT_FORMAT: &'static str = r"\(Format: .*TXT.*\)";

#[derive(Clone, Copy, Debug, PartialEq, Eq, Structural)]
pub enum IndexError {
    /// The separator line is missing: the index format has changed.
    MissingSeparator,
}

/// The text begins with four ASCII digits.
pub open spec fn starts_with_number(s: Seq<char>) -> bool {
    s.len() >= 4 && forall|i: int| 0 <= i < 4 ==> is_digit(s[i])
}

/// Somewhere on one line the text holds `(Format: `, later `TXT`, and later
/// a closing parenthesis.
pub open spec fn names_text_format(s: Seq<char>) -> bool {
    exists|a: int, b: int, c: int|
        occurs_at(s, seq!['(', 'F', 'o', 'r', 'm', 'a', 't', ':', ' '], a) && a + 9 <= b
            && occurs_at(s, seq!['T', 'X', 'T'], b) && b + 3 <= c < s.len() && s[c] == ')'
            && forall|k: int| a <= k < c ==> s[k] != '\n'
}

/// Relies on `regex::Regex::new` and `regex::Regex::is_match`: compiles
/// `pattern` once and tells, for each haystack in turn, whether the pattern
/// matches anywhere in it. `Regex::new` fails only on invalid syntax or when
/// the compiled size limit is exceeded, neither of which holds of the two
/// small patterns of the index.
#[verifier::external_body]
fn regex_matches(pattern: &str, haystacks: &Vec<String>) -> (r: Result<Vec<bool>, regex::Error>)
    ensures
        pattern@ == NUMBER_PREFIX@ || pattern@ == TEXT_FORMAT@ ==> r is Ok,
        r matches Ok(m) ==> m@.len() == haystacks@.len(),
        pattern@ == NUMBER_PREFIX@ ==> (r matches Ok(m) ==> forall|i: int|
            0 <= i < m@.len() ==> m@[i] == starts_with_number(haystacks@[i]@)),
        pattern@ == TEXT_FORMAT@ ==> (r matches Ok(m) ==> forall|i: int|
            0 <= i < m@.len() ==> m@[i] == names_text_format(haystacks@[i]@)),
{
    let re = regex::Regex::new(pattern)?;
    Ok(haystacks.iter().map(|h| re.is_match(h)).collect())
}

/// A block is a record when it begins with a number and was issued.
pub open spec fn is_record(b: Seq<char>) -> bool {
    starts_with_number(b) && !contains(b, NOT_ISSUED@)
}

/// Wrapped lines joined into one.
pub open spec fn joined(b: Seq<char>) -> Seq<char> {
    replace_from(b, CONTINUATION@, JOINER@, 0)
}

pub open spec fn record_of(b: Seq<char>) -> Rfc {
    Rfc { num: digits_value(b.take(4)) as u32, has_txt: names_text_format(joined(b)) }
}

/// The records among the blocks, in order.
pub open spec fn records_of(bs: Seq<Seq<char>>) -> Seq<Rfc>
    decreases bs.len(),
{
    if bs.len() == 0 {
        seq![]
    } else {
        records_of(bs.drop_last()) + if is_record(bs.last()) {
            seq![record_of(bs.last())]
        } else {
            seq![]
        }
    }
}

/// The records listed after the last separator line, or `None` where the
/// index has no separator line.
pub open spec fn index_records(t: Seq<char>) -> Option<Seq<Rfc>> {
    match rfind_spec(t, SEPARATOR@) {
        None => None,
        Some(i) => Some(records_of(split_from(t, BLANK_LINE@, i + SEPARATOR@.len()))),
    }
}

proof fn lemma_four_digits(s: Seq<char>)
    requires
        s.len() >= 4,
    ensures
        digits_value(s.take(4)) == digit_value(s[0]) * 1000 + digit_value(s[1]) * 100
            + digit_value(s[2]) * 10 + digit_value(s[3]),
{
    assert(s.take(4).drop_last() =~= s.take(3));
    assert(s.take(3).drop_last() =~= s.take(2));
    assert(s.take(2).drop_last() =~= s.take(1));
    assert(s.take(1).drop_last() =~= s.take(0));
    assert(digits_value(s.take(0)) == 0);
    assert(digits_value(s.take(1)) == digit_value(s[0]));
    assert(digits_value(s.take(2)) == digit_value(s[0]) * 10 + digit_value(s[1]));
    assert(digits_value(s.take(3)) == (digit_value(s[0]) * 10 + digit_value(s[1])) * 10
        + digit_value(s[2]));
    assert(digits_value(s.take(4)) == ((digit_value(s[0]) * 10 + digit_value(s[1])) * 10
        + digit_value(s[2])) * 10 + digit_value(s[3]));
}

/// The document number that a record begins with.
fn number_of(b: &Vec<char>) -> (r: u32)
    requires
        starts_with_number(b@),
    ensures
        r as nat == digits_value(b@.take(4)),
{
    let zero = '0' as u32;
    let d0 = b[0] as u32 - zero;
    let d1 = b[1] as u32 - zero;
    let d2 = b[2] as u32 - zero;
    let d3 = b[3] as u32 - zero;
    proof {
        lemma_four_digits(b@);
    }
    d0 * 1000 + d1 * 100 + d2 * 10 + d3
}

/// Whether `p` occurs anywhere in `s`.
fn contains_chars(s: &Vec<char>, p: &Vec<char>) -> (r: bool)
    ensures
        r == contains(s@, p@),
{
    proof {
        lemma_find_from_bounds(s@, p@, 0);
    }
    match find(s, p, 0) {
        Some(_) => true,
        None => false,
    }
}

/// The records of the index text, in order of appearance. Fails exactly
/// when the separator line is absent.
pub fn parse_index(text: &str) -> (r: Result<Vec<Rfc>, IndexError>)
    ensures
        match index_records(text@) {
            None => r == Err::<Vec<Rfc>, IndexError>(IndexError::MissingSeparator),
            Some(items) => r matches Ok(v) && v@ == items,
        },
{
    let chars = chars_of(text);
    let sep = chars_of(SEPARATOR);
    let start = match rfind(&chars, &sep) {
        None => return Err(IndexError::MissingSeparator),
        Some(i) => i,
    };
    proof {
        crate::text::lemma_rfind_upto_bounds(chars@, sep@, chars@.len() - sep@.len());
        reveal_strlit("\n\n");
        reveal_strlit("\n     ");
    }
    let blank = chars_of(BLANK_LINE);
    let blocks = split(&chars, &blank, start + sep.len());
    let ghost bv = blocks@.map_values(|b: Vec<char>| b@);
    assert(index_records(text@) == Some(records_of(bv)));

    let mut texts: Vec<String> = Vec::new();
    let mut k: usize = 0;
    while k < blocks.len()
        invariant
            k <= blocks@.len(),
            bv == blocks@.map_values(|b: Vec<char>| b@),
            texts@.len() == k,
            forall|i: int| 0 <= i < k ==> #[trigger] texts@[i]@ == bv[i],
        decreases blocks@.len() - k,
    {
        texts.push(string_of(&blocks[k]));
        k = k + 1;
    }
    let numbered = regex_matches(NUMBER_PREFIX, &texts).unwrap();

    // The number and the joined text of each record, in order.
    let not_issued = chars_of(NOT_ISSUED);
    let cont = chars_of(CONTINUATION);
    let joiner = chars_of(JOINER);
    let mut nums: Vec<u32> = Vec::new();
    let mut joined_texts: Vec<String> = Vec::new();
    let mut k: usize = 0;
    while k < blocks.len()
        invariant
            k <= blocks@.len(),
            bv == blocks@.map_values(|b: Vec<char>| b@),
            numbered@.len() == blocks@.len(),
            forall|i: int| 0 <= i < numbered@.len() ==> numbered@[i] == starts_with_number(
                #[trigger] bv[i],
            ),
            nums@.len() == joined_texts@.len(),
            nums@.len() == records_of(bv.take(k as int)).len(),
            forall|j: int|
                0 <= j < nums@.len() ==> #[trigger] nums@[j] == records_of(bv.take(k as int))[j].num,
            forall|j: int|
                0 <= j < joined_texts@.len() ==> names_text_format(#[trigger] joined_texts@[j]@)
                    == records_of(bv.take(k as int))[j].has_txt,
            not_issued@ == NOT_ISSUED@,
            cont@ == CONTINUATION@,
            cont@.len() > 0,
            joiner@ == JOINER@,
        decreases blocks@.len() - k,
    {
        let b = &blocks[k];
        assert(bv.take(k + 1).drop_last() =~= bv.take(k as int));
        assert(bv.take(k + 1).last() == b@);
        let ghost prev = records_of(bv.take(k as int));
        let ghost cur = records_of(bv.take(k + 1));
        if numbered[k] && !contains_chars(b, &not_issued) {
            let j = replace(b, &cont, &joiner, 0);
            let num = number_of(b);
            let ghost old_nums = nums@;
            let ghost old_texts = joined_texts@;
            nums.push(num);
            joined_texts.push(string_of(&j));
            assert(cur == prev.push(record_of(b@)));
            assert forall|i: int| 0 <= i < nums@.len() implies #[trigger] nums@[i] == cur[i].num by {
                if i < old_nums.len() {
                    assert(nums@[i] == old_nums[i]);
                }
            }
            assert forall|i: int| 0 <= i < joined_texts@.len() implies names_text_format(
                #[trigger] joined_texts@[i]@,
            ) == cur[i].has_txt by {
                if i < old_texts.len() {
                    assert(joined_texts@[i] == old_texts[i]);
                }
            }
        } else {
            assert(cur =~= prev);
        }
        k = k + 1;
        assert(cur == records_of(bv.take(k as int)));
    }
    assert(bv.take(k as int) =~= bv);
    let has_txt = regex_matches(TEXT_FORMAT, &joined_texts).unwrap();

    let ghost items = records_of(bv);
    let mut out: Vec<Rfc> = Vec::new();
    let mut j: usize = 0;
    while j < nums.len()
        invariant
            j <= nums@.len(),
            nums@.len() == items.len(),
            has_txt@.len() == joined_texts@.len(),
            nums@.len() == joined_texts@.len(),
            forall|i: int|
                #![trigger nums@[i]]
                0 <= i < nums@.len() ==> {
                    &&& nums@[i] == items[i].num
                    &&& names_text_format(joined_texts@[i]@) == items[i].has_txt
                },
            forall|i: int| 0 <= i < has_txt@.len() ==> has_txt@[i] == names_text_format(
                #[trigger] joined_texts@[i]@,
            ),
            out@ == items.take(j as int),
        decreases nums@.len() - j,
    {
        out.push(Rfc { num: nums[j], has_txt: has_txt[j] });
        assert(out@ =~= items.take(j + 1));
        j = j + 1;
    }
    assert(out@ =~= items);
    Ok(out)
}

/// The records still to fetch: those with a plain-text form whose file is
/// not present (`present[i]` tells whether the file of `items[i]` exists).
pub open spec fn pending_of(items: Seq<Rfc>, present: Seq<bool>) -> Seq<Rfc>
    decreases items.len(),
{
    if items.len() == 0 {
        seq![]
    } else {
        pending_of(items.drop_last(), present.take(items.len() - 1)) + if items.last().has_txt
            && !present[items.len() - 1] {
            seq![items.last()]
        } else {
            seq![]
        }
    }
}

/// How many records have a plain-text form.
pub open spec fn retrievable(items: Seq<Rfc>) -> nat
    decreases items.len(),
{
    if items.len() == 0 {
        0
    } else {
        retrievable(items.drop_last()) + if items.last().has_txt { 1nat } else { 0nat }
    }
}

/// How many records have a plain-text form whose file is present.
pub open spec fn retrievable_present(items: Seq<Rfc>, present: Seq<bool>) -> nat
    decreases items.len(),
{
    if items.len() == 0 {
        0
    } else {
        retrievable_present(items.drop_last(), present.take(items.len() - 1)) + if items.last().has_txt
            && present[items.len() - 1] {
            1nat
        } else {
            0nat
        }
    }
}

/// Whether the file of each record is in the set of stored paths.
pub open spec fn presence(items: Seq<Rfc>, stored: Set<Seq<char>>) -> Seq<bool> {
    Seq::new(items.len(), |i: int| stored.contains(path_of(items[i].num as nat)))
}

/// Keeps, in order, the records with a plain-text form whose file is not present.
pub fn pending(items: &Vec<Rfc>, present: &Vec<bool>) -> (r: Vec<Rfc>)
    requires
        present@.len() == items@.len(),
    ensures
        r@ == pending_of(items@, present@),
{
    let mut out: Vec<Rfc> = Vec::new();
    let mut i: usize = 0;
    while i < items.len()
        invariant
            i <= items@.len(),
            present@.len() == items@.len(),
            out@ == pending_of(items@.take(i as int), present@.take(i as int)),
        decreases items@.len() - i,
    {
        assert(items@.take(i + 1).drop_last() =~= items@.take(i as int));
        assert(present@.take(i + 1).take(i as int) =~= present@.take(i as int));
        if items[i].has_txt && !present[i] {
            out.push(items[i]);
        }
        i = i + 1;
    }
    assert(items@.take(i as int) =~= items@);
    assert(present@.take(i as int) =~= present@);
    out
}

proof fn lemma_pending_count(items: Seq<Rfc>, present: Seq<bool>)
    requires
        present.len() == items.len(),
    ensures
        retrievable_present(items, present) <= retrievable(items),
        pending_of(items, present).len() == retrievable(items) - retrievable_present(
            items,
            present,
        ),
    decreases items.len(),
{
    if items.len() > 0 {
        lemma_pending_count(items.drop_last(), present.take(items.len() - 1));
    }
}

proof fn lemma_pending_holds(items: Seq<Rfc>, present: Seq<bool>, i: int)
    requires
        present.len() == items.len(),
        0 <= i < items.len(),
        items[i].has_txt,
        !present[i],
    ensures
        pending_of(items, present).contains(items[i]),
    decreases items.len(),
{
    let rest = pending_of(items.drop_last(), present.take(items.len() - 1));
    let tail = if items.last().has_txt && !present[items.len() - 1] {
        seq![items.last()]
    } else {
        seq![]
    };
    if i == items.len() - 1 {
        assert((rest + tail)[rest.len() as int] == items[i]);
    } else {
        lemma_pending_holds(items.drop_last(), present.take(items.len() - 1), i);
        let k = choose|k: int| 0 <= k < rest.len() && rest[k] == items[i];
        assert((rest + tail)[k] == items[i]);
    }
}

proof fn lemma_nothing_pending(items: Seq<Rfc>, present: Seq<bool>)
    requires
        present.len() == items.len(),
        forall|i: int| 0 <= i < items.len() && #[trigger] items[i].has_txt ==> present[i],
    ensures
        pending_of(items, present).len() == 0,
    decreases items.len(),
{
    if items.len() > 0 {
        lemma_nothing_pending(items.drop_last(), present.take(items.len() - 1));
    }
}

/// Of the records of an index, the number left to fetch is the number with a
/// plain-text form less the number of those already present.
pub proof fn law_pending_count(text: Seq<char>, present: Seq<bool>)
    requires
        index_records(text) is Some,
        present.len() == index_records(text)->0.len(),
    ensures
        ({
            let items = index_records(text)->0;
            &&& retrievable_present(items, present) <= retrievable(items)
            &&& pending_of(items, present).len() == retrievable(items) - retrievable_present(
                items,
                present,
            )
        }),
{
    lemma_pending_count(index_records(text)->0, present);
}

/// Once a run has stored every record it found pending (and removed
/// nothing), a second run over the same records finds nothing left to fetch.
pub proof fn law_rerun_schedules_nothing(
    items: Seq<Rfc>,
    before: Set<Seq<char>>,
    after: Set<Seq<char>>,
)
    requires
        before.subset_of(after),
        forall|k: int|
            0 <= k < pending_of(items, presence(items, before)).len() ==> after.contains(
                path_of(#[trigger] pending_of(items, presence(items, before))[k].num as nat),
            ),
    ensures
        pending_of(items, presence(items, after)).len() == 0,
{
    let first = pending_of(items, presence(items, before));
    assert forall|i: int| 0 <= i < items.len() && #[trigger] items[i].has_txt implies presence(
        items,
        after,
    )[i] by {
        if !before.contains(path_of(items[i].num as nat)) {
            lemma_pending_holds(items, presence(items, before), i);
            let k = choose|k: int| 0 <= k < first.len() && first[k] == items[i];
            assert(after.contains(path_of(first[k].num as nat)));
        }
    }
    lemma_nothing_pending(items, presence(items, after));
}

} // verus!
