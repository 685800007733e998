//! The production grammar: turns the text of a sign into the tagged parse
//! tree the analyzer walks. Matching is case-insensitive; any word outside
//! the grammar fails the whole input with a parse error.

use vstd::prelude::*;

use crate::tree::Node;
use crate::tree::RuleError;
use crate::tree::Tag;

verus! {

use vstd::string::StringSliceAdditionalSpecFns;

/// The hyphen that separates the two ends of a range word.
pub const HYPHEN: u8 = 45;

/// The comma that separates the entries of a list word.
pub const COMMA: u8 = 44;

/// The solidus that separates a duration's numerator and denominator.
pub const SOLIDUS: u8 = 47;

/// The colon that separates hours from minutes in a time word.
pub const COLON: u8 = 58;

/// The word separators: space and tab.
pub const SPACE: u8 = 32;

pub const TAB: u8 = 9;

/// The closing byte of an arrow word.
pub const GREATER: u8 = 62;

use crate::analyzer::DIGIT_NINE;
use crate::analyzer::DIGIT_ZERO;
use crate::analyzer::UPPER_A;
use crate::analyzer::UPPER_Z;

use crate::analyzer::digits_val;
use crate::analyzer::is_pm_text;
use crate::analyzer::number_ok;
use crate::analyzer::spec_lower_byte;
use crate::analyzer::spec_process_time;
use crate::analyzer::spec_time_fold;
use crate::analyzer::spec_day_from_tag;
use crate::analyzer::spec_month_from_tag;
use crate::parking::Day;
use crate::parking::Month;
use crate::parking::Span;
use crate::parking::Time;
use crate::parking::TimeLimit;

fn lower(b: u8) -> (r: u8)
    ensures
        r == spec_lower_byte(b),
{
    if UPPER_A <= b && b <= UPPER_Z {
        b + 32
    } else {
        b
    }
}

fn is_digit_byte(b: u8) -> (r: bool)
    ensures
        r == crate::analyzer::is_digit(b),
{
    DIGIT_ZERO <= b && b <= DIGIT_NINE
}

/// Whether a word reads exactly as the given keyword.
fn word_is(w: &[u8], k: &str) -> (r: bool)
    ensures
        r == (w@ == k.spec_bytes()),
{
    let kb = k.as_bytes();
    if w.len() != kb.len() {
        proof {
            assert(w@ != k.spec_bytes());
        }
        return false;
    }
    let mut i: usize = 0;
    while i < w.len()
        invariant
            0 <= i <= w@.len(),
            w@.len() == kb@.len(),
            kb@ == k.spec_bytes(),
            forall|j: int| 0 <= j < i ==> w@[j] == kb@[j],
        decreases w@.len() - i,
    {
        if w[i] != kb[i] {
            proof {
                assert(w@ != k.spec_bytes());
            }
            return false;
        }
        i += 1;
    }
    proof {
        assert(w@ =~= kb@);
    }
    true
}

/// How one input byte extends the words gathered so far and the word being
/// gathered: a separator closes a non-empty word, any other byte joins the
/// current word lower-cased.
pub open spec fn split_step(acc: (Seq<Seq<u8>>, Seq<u8>), b: u8) -> (Seq<Seq<u8>>, Seq<u8>) {
    if b == SPACE || b == TAB {
        if acc.1.len() > 0 {
            (acc.0.push(acc.1), Seq::<u8>::empty())
        } else {
            acc
        }
    } else {
        (acc.0, acc.1.push(spec_lower_byte(b)))
    }
}

pub open spec fn split_fold(bytes: Seq<u8>, acc: (Seq<Seq<u8>>, Seq<u8>)) -> (
    Seq<Seq<u8>>,
    Seq<u8>,
)
    decreases bytes.len(),
{
    if bytes.len() == 0 {
        acc
    } else {
        split_fold(bytes.skip(1), split_step(acc, bytes[0]))
    }
}

/// The lower-cased words of the input, split at spaces and tabs.
pub open spec fn spec_split_words(bytes: Seq<u8>) -> Seq<Seq<u8>> {
    let acc = split_fold(bytes, (Seq::<Seq<u8>>::empty(), Seq::<u8>::empty()));
    if acc.1.len() > 0 {
        acc.0.push(acc.1)
    } else {
        acc.0
    }
}

/// The byte sequences of a sequence of owned words.
pub open spec fn words_view(ws: Seq<Vec<u8>>) -> Seq<Seq<u8>> {
    ws.map(|i: int, w: Vec<u8>| w@)
}

/// Splits the input into lower-cased words at spaces and tabs.
fn split_words(bytes: &[u8]) -> (r: Vec<Vec<u8>>)
    ensures
        words_view(r@) == spec_split_words(bytes@),
        bytes@.len() == 0 ==> r@.len() == 0,
{
    let mut words: Vec<Vec<u8>> = Vec::new();
    let mut current: Vec<u8> = Vec::new();
    let mut i: usize = 0;
    proof {
        assert(bytes@.skip(0) =~= bytes@);
        assert(words_view(words@) =~= Seq::<Seq<u8>>::empty());
        assert(current@ =~= Seq::<u8>::empty());
    }
    while i < bytes.len()
        invariant
            0 <= i <= bytes@.len(),
            split_fold(bytes@, (Seq::<Seq<u8>>::empty(), Seq::<u8>::empty())) == split_fold(
                bytes@.skip(i as int),
                (words_view(words@), current@),
            ),
            bytes@.len() == 0 ==> words@.len() == 0 && current@.len() == 0,
        decreases bytes@.len() - i,
    {
        proof {
            assert(bytes@.skip(i as int)[0] == bytes@[i as int]);
            assert(bytes@.skip(i as int).skip(1) =~= bytes@.skip(i as int + 1));
        }
        let ghost pre = (words_view(words@), current@);
        let b = bytes[i];
        if b == SPACE || b == TAB {
            if current.len() > 0 {
                let ghost cur = current@;
                words.push(current);
                current = Vec::new();
                proof {
                    assert(words_view(words@) =~= pre.0.push(cur));
                    assert(current@ =~= Seq::<u8>::empty());
                    assert((words_view(words@), current@) == split_step(pre, b));
                }
            }
        } else {
            current.push(lower(b));
            proof {
                assert((words_view(words@), current@) == split_step(pre, b));
            }
        }
        i += 1;
    }
    proof {
        assert(bytes@.skip(bytes@.len() as int) =~= Seq::<u8>::empty());
    }
    if current.len() > 0 {
        let ghost pre_words = words_view(words@);
        let ghost cur = current@;
        words.push(current);
        proof {
            assert(words_view(words@) =~= pre_words.push(cur));
        }
    }
    words
}

/// The day-name tag a word denotes, if any; short and full names both count.
pub open spec fn spec_day_tag(w: Seq<u8>) -> Option<Tag> {
    if w == "sun".spec_bytes() || w == "sunday".spec_bytes() {
        Some(Tag::Sunday)
    } else if w == "mon".spec_bytes() || w == "monday".spec_bytes() {
        Some(Tag::Monday)
    } else if w == "tue".spec_bytes() || w == "tues".spec_bytes() || w == "tuesday".spec_bytes() {
        Some(Tag::Tuesday)
    } else if w == "wed".spec_bytes() || w == "wednesday".spec_bytes() {
        Some(Tag::Wednesday)
    } else if w == "thu".spec_bytes() || w == "thur".spec_bytes() || w == "thurs".spec_bytes()
        || w == "thursday".spec_bytes() {
        Some(Tag::Thursday)
    } else if w == "fri".spec_bytes() || w == "friday".spec_bytes() {
        Some(Tag::Friday)
    } else if w == "sat".spec_bytes() || w == "saturday".spec_bytes() {
        Some(Tag::Saturday)
    } else {
        None
    }
}

fn day_tag_of_word(w: &[u8]) -> (r: Option<Tag>)
    ensures
        r == spec_day_tag(w@),
{
    if word_is(w, "sun") || word_is(w, "sunday") {
        Some(Tag::Sunday)
    } else if word_is(w, "mon") || word_is(w, "monday") {
        Some(Tag::Monday)
    } else if word_is(w, "tue") || word_is(w, "tues") || word_is(w, "tuesday") {
        Some(Tag::Tuesday)
    } else if word_is(w, "wed") || word_is(w, "wednesday") {
        Some(Tag::Wednesday)
    } else if word_is(w, "thu") || word_is(w, "thur") || word_is(w, "thurs") || word_is(
        w,
        "thursday",
    ) {
        Some(Tag::Thursday)
    } else if word_is(w, "fri") || word_is(w, "friday") {
        Some(Tag::Friday)
    } else if word_is(w, "sat") || word_is(w, "saturday") {
        Some(Tag::Saturday)
    } else {
        None
    }
}

/// The month-name tag a word denotes, if any.
pub open spec fn spec_month_tag(w: Seq<u8>) -> Option<Tag> {
    if w == "jan".spec_bytes() || w == "january".spec_bytes() {
        Some(Tag::January)
    } else if w == "feb".spec_bytes() || w == "february".spec_bytes() {
        Some(Tag::February)
    } else if w == "mar".spec_bytes() || w == "march".spec_bytes() {
        Some(Tag::March)
    } else if w == "apr".spec_bytes() || w == "april".spec_bytes() {
        Some(Tag::April)
    } else if w == "may".spec_bytes() {
        Some(Tag::May)
    } else if w == "jun".spec_bytes() || w == "june".spec_bytes() {
        Some(Tag::June)
    } else if w == "jul".spec_bytes() || w == "july".spec_bytes() {
        Some(Tag::July)
    } else if w == "aug".spec_bytes() || w == "august".spec_bytes() {
        Some(Tag::August)
    } else if w == "sep".spec_bytes() || w == "sept".spec_bytes() || w
        == "september".spec_bytes() {
        Some(Tag::September)
    } else if w == "oct".spec_bytes() || w == "october".spec_bytes() {
        Some(Tag::October)
    } else if w == "nov".spec_bytes() || w == "november".spec_bytes() {
        Some(Tag::November)
    } else if w == "dec".spec_bytes() || w == "december".spec_bytes() {
        Some(Tag::December)
    } else {
        None
    }
}

fn month_tag_of_word(w: &[u8]) -> (r: Option<Tag>)
    ensures
        r == spec_month_tag(w@),
{
    if word_is(w, "jan") || word_is(w, "january") {
        Some(Tag::January)
    } else if word_is(w, "feb") || word_is(w, "february") {
        Some(Tag::February)
    } else if word_is(w, "mar") || word_is(w, "march") {
        Some(Tag::March)
    } else if word_is(w, "apr") || word_is(w, "april") {
        Some(Tag::April)
    } else if word_is(w, "may") {
        Some(Tag::May)
    } else if word_is(w, "jun") || word_is(w, "june") {
        Some(Tag::June)
    } else if word_is(w, "jul") || word_is(w, "july") {
        Some(Tag::July)
    } else if word_is(w, "aug") || word_is(w, "august") {
        Some(Tag::August)
    } else if word_is(w, "sep") || word_is(w, "sept") || word_is(w, "september") {
        Some(Tag::September)
    } else if word_is(w, "oct") || word_is(w, "october") {
        Some(Tag::October)
    } else if word_is(w, "nov") || word_is(w, "november") {
        Some(Tag::November)
    } else if word_is(w, "dec") || word_is(w, "december") {
        Some(Tag::December)
    } else {
        None
    }
}

/// The vehicle-name tag a word denotes, if any; "cabs" is the null
/// horse-drawn-cabs case.
pub open spec fn spec_vehicle_tag(w: Seq<u8>) -> Option<Tag> {
    if w == "trucks".spec_bytes() || w == "truck".spec_bytes() {
        Some(Tag::Trucks)
    } else if w == "commercial".spec_bytes() {
        Some(Tag::Commercial)
    } else if w == "cabs".spec_bytes() {
        Some(Tag::HorseCabs)
    } else {
        None
    }
}

fn vehicle_tag_of_word(w: &[u8]) -> (r: Option<Tag>)
    ensures
        r == spec_vehicle_tag(w@),
{
    if word_is(w, "trucks") || word_is(w, "truck") {
        Some(Tag::Trucks)
    } else if word_is(w, "commercial") {
        Some(Tag::Commercial)
    } else if word_is(w, "cabs") {
        Some(Tag::HorseCabs)
    } else {
        None
    }
}

/// Whether a word can open a time: a leading digit, or a named time of day.
pub open spec fn spec_is_timeish(w: Seq<u8>) -> bool {
    w == "midnight".spec_bytes() || w == "midday".spec_bytes() || w == "noon".spec_bytes() || (
    w.len() > 0 && crate::analyzer::is_digit(w[0]))
}

fn is_timeish(w: &[u8]) -> (r: bool)
    ensures
        r == spec_is_timeish(w@),
{
    if word_is(w, "midnight") || word_is(w, "midday") || word_is(w, "noon") {
        return true;
    }
    w.len() > 0 && is_digit_byte(w[0])
}

fn all_digit_bytes(w: &[u8]) -> (r: bool)
    ensures
        r == crate::analyzer::all_digits(w@),
{
    let mut i: usize = 0;
    let mut ok = true;
    while i < w.len()
        invariant
            0 <= i <= w@.len(),
            ok <==> (forall|k: int| 0 <= k < i ==> crate::analyzer::is_digit(#[trigger] w@[k])),
        decreases w@.len() - i,
    {
        if !is_digit_byte(w[i]) {
            ok = false;
        }
        i += 1;
    }
    ok
}

/// The index of the first occurrence of `b` in `w` at or after `from`.
pub open spec fn spec_find_byte(w: Seq<u8>, b: u8, from: int) -> Option<int>
    decreases w.len() - from when 0 <= from <= w.len()
{
    if from >= w.len() {
        None
    } else if w[from] == b {
        Some(from)
    } else {
        spec_find_byte(w, b, from + 1)
    }
}

/// The index of the first occurrence of `b` in `w`, if any.
fn find_byte(w: &[u8], b: u8) -> (r: Option<usize>)
    ensures
        match r {
            Some(i) => i < w@.len() && spec_find_byte(w@, b, 0) == Some(i as int),
            None => spec_find_byte(w@, b, 0) is None,
        },
{
    let mut i: usize = 0;
    while i < w.len()
        invariant
            0 <= i <= w@.len(),
            spec_find_byte(w@, b, 0) == spec_find_byte(w@, b, i as int),
        decreases w@.len() - i,
    {
        if w[i] == b {
            return Some(i);
        }
        i += 1;
    }
    None
}

fn copy_range(w: &[u8], from: usize, to: usize) -> (r: Vec<u8>)
    requires
        from <= to <= w@.len(),
    ensures
        r@ == w@.subrange(from as int, to as int),
{
    let mut out: Vec<u8> = Vec::new();
    let mut i: usize = from;
    proof {
        assert(out@ =~= w@.subrange(from as int, from as int));
    }
    while i < to
        invariant
            from <= i <= to <= w@.len(),
            out@ == w@.subrange(from as int, i as int),
        decreases to - i,
    {
        out.push(w[i]);
        proof {
            assert(w@.subrange(from as int, i + 1) =~= w@.subrange(from as int, i as int).push(
                w@[i as int],
            ));
        }
        i += 1;
    }
    out
}

/// One `Digit` leaf per byte of a digit run, appended in order.
fn digit_leaves(children: &mut Vec<Node>, w: &[u8], from: usize, to: usize)
    requires
        from <= to <= w@.len(),
    ensures
        final(children)@.len() == old(children)@.len() + (to - from),
        forall|q: int|
            0 <= q < old(children)@.len() ==> final(children)@[q] == old(children)@[q],
        forall|q: int|
            0 <= q < to - from ==> (#[trigger] final(children)@[old(children)@.len() + q]).tag
                == Tag::Digit && final(children)@[old(children)@.len() + q].text@ == seq![
                w@[from + q],
            ],
{
    let ghost base = children@.len() as int;
    let mut i: usize = from;
    while i < to
        invariant
            from <= i <= to <= w@.len(),
            children@.len() == base + (i - from),
            base == old(children)@.len(),
            forall|q: int| 0 <= q < base ==> children@[q] == old(children)@[q],
            forall|q: int|
                0 <= q < i - from ==> (#[trigger] children@[base + q]).tag == Tag::Digit
                    && children@[base + q].text@ == seq![w@[from + q]],
        decreases to - i,
    {
        let mut text: Vec<u8> = Vec::new();
        text.push(w[i]);
        proof {
            assert(text@ =~= seq![w@[i as int]]);
        }
        children.push(Node::text_leaf(Tag::Digit, text));
        i += 1;
    }
}

proof fn lemma_digit_leaf_concat(cs: Seq<Node>, p: int, w: Seq<u8>, from: int, to: int)
    requires
        0 <= p,
        0 <= from <= to <= w.len(),
        p + (to - from) <= cs.len(),
        forall|q: int|
            0 <= q < to - from ==> (#[trigger] cs[p + q]).tag == Tag::Digit && cs[p + q].text@
                == seq![w[from + q]],
    ensures
        crate::analyzer::concat_texts(cs, p, p + (to - from)) == w.subrange(from, to),
    decreases to - from,
{
    if from < to {
        lemma_digit_leaf_concat(cs, p, w, from, to - 1);
        assert(cs[p + (to - from) - 1].text@ == seq![w[to - 1]]);
        assert(w.subrange(from, to) =~= w.subrange(from, to - 1) + seq![w[to - 1]]);
    } else {
        assert(w.subrange(from, from) =~= Seq::<u8>::empty());
    }
}

/// The index just past the run of digit bytes that starts at `from`.
pub open spec fn byte_run_end(w: Seq<u8>, from: int) -> int
    decreases w.len() - from when 0 <= from <= w.len()
{
    if from >= w.len() {
        from
    } else if crate::analyzer::is_digit(w[from]) {
        byte_run_end(w, from + 1)
    } else {
        from
    }
}

proof fn lemma_byte_run_prefix(w: Seq<u8>, from: int, j: int)
    requires
        0 <= from <= j <= w.len(),
        forall|k: int| from <= k < j ==> crate::analyzer::is_digit(#[trigger] w[k]),
        j < w.len() ==> !crate::analyzer::is_digit(w[j]),
    ensures
        byte_run_end(w, from) == j,
    decreases j - from,
{
    if from < j {
        lemma_byte_run_prefix(w, from + 1, j);
    }
}

/// The time of day a single word denotes once analyzed: a named time, or an
/// hour digit run with optional colon-separated minutes and an optional
/// meridiem suffix. A word of any other shape is a parse error; a word of
/// this shape whose numbers leave the time-of-day domain is a conversion
/// error.
pub open spec fn spec_time_word(w: Seq<u8>) -> Result<Time, RuleError> {
    if w == "midnight".spec_bytes() {
        Ok(Time { hours: 0, minutes: 0 })
    } else if w == "midday".spec_bytes() || w == "noon".spec_bytes() {
        Ok(Time { hours: 12, minutes: 0 })
    } else {
        let i = byte_run_end(w, 0);
        if i == 0 {
            Err(RuleError::Parse)
        } else {
            let hours_txt = w.subrange(0, i);
            let has_min = i < w.len() && w[i] == COLON;
            let j = if has_min {
                byte_run_end(w, i + 1)
            } else {
                i
            };
            if has_min && j == i + 1 {
                Err(RuleError::Parse)
            } else {
                let rest = w.subrange(j, w.len() as int);
                if j < w.len() && !(rest == "am".spec_bytes() || rest == "pm".spec_bytes()) {
                    Err(RuleError::Parse)
                } else if !number_ok(hours_txt, 23) {
                    Err(RuleError::FieldConversion)
                } else {
                    let h = digits_val(hours_txt) as u8;
                    if has_min && !number_ok(w.subrange(i + 1, j), 59) {
                        Err(RuleError::FieldConversion)
                    } else {
                        let m = if has_min {
                            digits_val(w.subrange(i + 1, j)) as u8
                        } else {
                            0u8
                        };
                        if j < w.len() && is_pm_text(rest) {
                            if h + 12 <= 23 {
                                Ok(Time { hours: (h + 12) as u8, minutes: m })
                            } else {
                                Err(RuleError::FieldConversion)
                            }
                        } else {
                            Ok(Time { hours: h, minutes: m })
                        }
                    }
                }
            }
        }
    }
}

/// Reads one word as a time of day: a named time, or digits with optional
/// colon-separated minutes and an optional meridiem suffix. The node it
/// builds denotes exactly the word's time.
fn parse_time_word(w: &[u8]) -> (r: Result<Node, RuleError>)
    ensures
        match r {
            Ok(n) => n.tag == Tag::TimeNode && spec_process_time(n) == spec_time_word(w@),
            Err(e) => e == RuleError::Parse && spec_time_word(w@) == Err::<Time, RuleError>(
                RuleError::Parse,
            ),
        },
{
    if word_is(w, "midnight") {
        let mut cs: Vec<Node> = Vec::new();
        cs.push(Node::leaf(Tag::Midnight));
        let n = Node::interior(Tag::TimeNode, cs);
        proof {
            reveal_with_fuel(spec_time_fold, 3);
            assert(n.children@.skip(1) =~= Seq::<Node>::empty());
        }
        return Ok(n);
    }
    if word_is(w, "midday") || word_is(w, "noon") {
        let mut cs: Vec<Node> = Vec::new();
        cs.push(Node::leaf(Tag::Midday));
        let n = Node::interior(Tag::TimeNode, cs);
        proof {
            reveal_with_fuel(spec_time_fold, 3);
            assert(n.children@.skip(1) =~= Seq::<Node>::empty());
        }
        return Ok(n);
    }
    let mut i: usize = 0;
    while i < w.len() && is_digit_byte(w[i])
        invariant
            0 <= i <= w@.len(),
            forall|k: int| 0 <= k < i ==> crate::analyzer::is_digit(#[trigger] w@[k]),
        decreases w@.len() - i,
    {
        i += 1;
    }
    proof {
        lemma_byte_run_prefix(w@, 0, i as int);
    }
    if i == 0 {
        return Err(RuleError::Parse);
    }
    let mut cs: Vec<Node> = Vec::new();
    cs.push(Node::text_leaf(Tag::Hours, copy_range(w, 0, i)));
    let mut j: usize = i;
    let has_min = j < w.len() && w[j] == COLON;
    if has_min {
        let start = j + 1;
        let mut k: usize = start;
        while k < w.len() && is_digit_byte(w[k])
            invariant
                start <= k <= w@.len(),
                forall|q: int| start <= q < k ==> crate::analyzer::is_digit(#[trigger] w@[q]),
            decreases w@.len() - k,
        {
            k += 1;
        }
        proof {
            lemma_byte_run_prefix(w@, start as int, k as int);
        }
        if k == start {
            return Err(RuleError::Parse);
        }
        cs.push(Node::text_leaf(Tag::Minutes, copy_range(w, start, k)));
        j = k;
    }
    let has_mer = j < w.len();
    if has_mer {
        let rest = copy_range(w, j, w.len());
        if word_is(rest.as_slice(), "am") || word_is(rest.as_slice(), "pm") {
            cs.push(Node::text_leaf(Tag::Meridiem, rest));
        } else {
            return Err(RuleError::Parse);
        }
    }
    let n = Node::interior(Tag::TimeNode, cs);
    proof {
        reveal_with_fuel(spec_time_fold, 5);
        let s = n.children@;
        if s.len() == 1 {
            assert(s.skip(1) =~= Seq::<Node>::empty());
        }
        if s.len() == 2 {
            assert(s.skip(1) =~= seq![s[1]]);
            assert(seq![s[1]].skip(1) =~= Seq::<Node>::empty());
        }
        if s.len() == 3 {
            assert(s.skip(1) =~= seq![s[1], s[2]]);
            assert(seq![s[1], s[2]].skip(1) =~= seq![s[2]]);
            assert(seq![s[2]].skip(1) =~= Seq::<Node>::empty());
        }
        assert(spec_process_time(n) == spec_time_word(w@));
    }
    Ok(n)
}

/// The restriction one range word denotes: day spans, month spans, or one
/// hour span.
pub enum RangeItem {
    Days(Seq<Span<Day>>),
    Months(Seq<Span<(u8, Month)>>),
    Times(Span<Time>),
}

/// The restriction a hyphenated word denotes once analyzed: a two-day pair,
/// a two-month pair, or a time pair whose start may be a bare digit run that
/// borrows the end's meridiem. A word of any other shape is a parse error.
pub open spec fn spec_hyphen_word(w: Seq<u8>, at: int) -> Result<RangeItem, RuleError> {
    if !(0 <= at < w.len()) {
        Err(RuleError::Parse)
    } else {
        let left = w.subrange(0, at);
        let right = w.subrange(at + 1, w.len() as int);
        if spec_day_tag(left) is Some && spec_day_tag(right) is Some {
            match (spec_day_from_tag(spec_day_tag(left).unwrap()), spec_day_from_tag(
                spec_day_tag(right).unwrap(),
            )) {
                (Ok(d1), Ok(d2)) => Ok(RangeItem::Days(seq![Span::Range(d1, d2)])),
                _ => Err(RuleError::StructuralInvariant),
            }
        } else if spec_month_tag(left) is Some && spec_month_tag(right) is Some {
            match (spec_month_from_tag(spec_month_tag(left).unwrap()), spec_month_from_tag(
                spec_month_tag(right).unwrap(),
            )) {
                (Ok(m1), Ok(m2)) => Ok(
                    RangeItem::Months(seq![Span::Range((1u8, m1), (31u8, m2))]),
                ),
                _ => Err(RuleError::StructuralInvariant),
            }
        } else if spec_is_timeish(left) && spec_is_timeish(right) {
            if left.len() > 0 && crate::analyzer::all_digits(left) {
                match spec_time_word(right) {
                    Err(RuleError::Parse) => Err(RuleError::Parse),
                    end => if !number_ok(left, 23) {
                        Err(RuleError::FieldConversion)
                    } else {
                        match end {
                            Ok(t1) => Ok(
                                RangeItem::Times(
                                    Span::Range(
                                        Time { hours: digits_val(left) as u8, minutes: 0 },
                                        t1,
                                    ),
                                ),
                            ),
                            Err(e) => Err(e),
                        }
                    },
                }
            } else {
                match spec_time_word(left) {
                    Err(RuleError::Parse) => Err(RuleError::Parse),
                    start => match spec_time_word(right) {
                        Err(RuleError::Parse) => Err(RuleError::Parse),
                        end => match start {
                            Err(e) => Err(e),
                            Ok(t0) => match end {
                                Err(e) => Err(e),
                                Ok(t1) => Ok(RangeItem::Times(Span::Range(t0, t1))),
                            },
                        },
                    },
                }
            }
        } else {
            Err(RuleError::Parse)
        }
    }
}

/// A two-day range node from two day-name tags.
fn build_day_pair(lt: Tag, rt: Tag) -> (n: Node)
    ensures
        n.tag == Tag::DayRange,
        crate::analyzer::spec_process_day_range(n) == (match (spec_day_from_tag(lt),
        spec_day_from_tag(rt)) {
            (Ok(d1), Ok(d2)) => Ok::<Seq<Span<Day>>, RuleError>(seq![Span::Range(d1, d2)]),
            (Err(e), _) => Err::<Seq<Span<Day>>, RuleError>(e),
            (_, Err(e)) => Err::<Seq<Span<Day>>, RuleError>(e),
        }),
{
    let mut cs: Vec<Node> = Vec::new();
    let mut s: Vec<Node> = Vec::new();
    s.push(Node::leaf(lt));
    cs.push(Node::interior(Tag::DayNode, s));
    let mut e: Vec<Node> = Vec::new();
    e.push(Node::leaf(rt));
    cs.push(Node::interior(Tag::DayNode, e));
    let n = Node::interior(Tag::DayRange, cs);
    proof {
        match crate::analyzer::spec_process_day_range(n) {
            Ok(v) => {
                assert(v =~= seq![
                    Span::<Day>::Range(
                        spec_day_from_tag(lt).unwrap(),
                        spec_day_from_tag(rt).unwrap(),
                    ),
                ]);
            },
            Err(_) => {},
        }
    }
    n
}

/// A two-month range node from two month-name tags, at whole-month
/// granularity.
fn build_month_pair(lt: Tag, rt: Tag) -> (n: Node)
    ensures
        n.tag == Tag::MonthRange,
        crate::analyzer::spec_process_month_range(n) == (match (spec_month_from_tag(lt),
        spec_month_from_tag(rt)) {
            (Ok(m1), Ok(m2)) => Ok::<Seq<Span<(u8, Month)>>, RuleError>(
                seq![Span::Range((1u8, m1), (31u8, m2))],
            ),
            (Err(e), _) => Err::<Seq<Span<(u8, Month)>>, RuleError>(e),
            (_, Err(e)) => Err::<Seq<Span<(u8, Month)>>, RuleError>(e),
        }),
{
    let mut cs: Vec<Node> = Vec::new();
    let mut s: Vec<Node> = Vec::new();
    s.push(Node::leaf(lt));
    cs.push(Node::interior(Tag::MonthNode, s));
    let mut e: Vec<Node> = Vec::new();
    e.push(Node::leaf(rt));
    cs.push(Node::interior(Tag::MonthNode, e));
    let n = Node::interior(Tag::MonthRange, cs);
    proof {
        match crate::analyzer::spec_process_month_range(n) {
            Ok(v) => {
                assert(v =~= seq![
                    Span::<(u8, Month)>::Range(
                        (1u8, spec_month_from_tag(lt).unwrap()),
                        (31u8, spec_month_from_tag(rt).unwrap()),
                    ),
                ]);
            },
            Err(_) => {},
        }
    }
    n
}

/// A time-range node from a left and right time word, the left possibly a
/// bare digit run.
#[verifier::rlimit(100)]
#[verifier::spinoff_prover]
fn build_time_pair(left: &[u8], right: &[u8]) -> (r: Result<Node, RuleError>)
    ensures
        match r {
            Ok(n) => n.tag == Tag::TimeRange && crate::analyzer::spec_process_time_range(n) == (
            if left@.len() > 0 && crate::analyzer::all_digits(left@) {
                if !number_ok(left@, 23) {
                    Err::<Span<Time>, RuleError>(RuleError::FieldConversion)
                } else {
                    match spec_time_word(right@) {
                        Ok(t1) => Ok::<Span<Time>, RuleError>(
                            Span::Range(
                                Time { hours: digits_val(left@) as u8, minutes: 0 },
                                t1,
                            ),
                        ),
                        Err(e) => Err::<Span<Time>, RuleError>(e),
                    }
                }
            } else {
                match spec_time_word(left@) {
                    Err(e) => Err::<Span<Time>, RuleError>(e),
                    Ok(t0) => match spec_time_word(right@) {
                        Ok(t1) => Ok::<Span<Time>, RuleError>(Span::Range(t0, t1)),
                        Err(e) => Err::<Span<Time>, RuleError>(e),
                    },
                }
            }) && spec_time_word(right@) != Err::<Time, RuleError>(RuleError::Parse) && (left@.len()
                > 0 && crate::analyzer::all_digits(left@) || spec_time_word(left@) != Err::<
                Time,
                RuleError,
            >(RuleError::Parse)),
            Err(e) => e == RuleError::Parse && (spec_time_word(right@) == Err::<Time, RuleError>(
                RuleError::Parse,
            ) || (!(left@.len() > 0 && crate::analyzer::all_digits(left@)) && spec_time_word(left@)
                == Err::<Time, RuleError>(RuleError::Parse))),
        },
{
    let mut cs: Vec<Node> = Vec::new();
    let led_by_digits = left.len() > 0 && all_digit_bytes(left);
    if led_by_digits {
        digit_leaves(&mut cs, left, 0, left.len());
    } else {
        match parse_time_word(left) {
            Ok(n) => cs.push(n),
            Err(e) => {
                return Err(e);
            },
        }
    }
    let ghost cs1 = cs@;
    match parse_time_word(right) {
        Ok(n) => cs.push(n),
        Err(e) => {
            return Err(e);
        },
    }
    let n = Node::interior(Tag::TimeRange, cs);
    proof {
        let sq = n.children@;
        crate::analyzer::lemma_time_fold_no_parse(
            sq.last().children@,
            Time { hours: 0, minutes: 0 },
        );
        if !led_by_digits {
            crate::analyzer::lemma_time_fold_no_parse(
                sq[0].children@,
                Time { hours: 0, minutes: 0 },
            );
        }
        if led_by_digits {
            assert(sq.len() == left@.len() + 1);
            assert(sq[left@.len() as int] == sq.last());
            assert forall|k: int| 0 <= k < left@.len() implies (#[trigger] sq[k]).tag
                == Tag::Digit && sq[k].text@ == seq![left@[k]] by {
                assert(cs1[0 + k].tag == Tag::Digit && cs1[0 + k].text@ == seq![left@[0 + k]]);
            }
            crate::analyzer::lemma_digit_run_prefix(sq, 0, left@.len() as int);
            lemma_digit_leaf_concat(sq, 0, left@, 0, left@.len() as int);
            assert(left@.subrange(0, left@.len() as int) =~= left@);
        }
    }
    Ok(n)
}

/// Reads one hyphenated range word into the restriction node it denotes: a
/// two-day pair, a two-month pair, or a time pair (whose start may be a bare
/// digit run that borrows the end's meridiem). The node it builds denotes
/// exactly the word's restriction.
#[verifier::rlimit(100)]
#[verifier::spinoff_prover]
fn parse_hyphen_range(w: &[u8], at: usize) -> (r: Result<Node, RuleError>)
    ensures
        match r {
            Ok(n) => match spec_hyphen_word(w@, at as int) {
                Ok(RangeItem::Days(v)) => n.tag == Tag::DayRange
                    && crate::analyzer::spec_process_day_range(n) == Ok::<
                    Seq<Span<Day>>,
                    RuleError,
                >(v),
                Ok(RangeItem::Months(v)) => n.tag == Tag::MonthRange
                    && crate::analyzer::spec_process_month_range(n) == Ok::<
                    Seq<Span<(u8, Month)>>,
                    RuleError,
                >(v),
                Ok(RangeItem::Times(v)) => n.tag == Tag::TimeRange
                    && crate::analyzer::spec_process_time_range(n) == Ok::<
                    Span<Time>,
                    RuleError,
                >(v),
                Err(e) => e != RuleError::Parse && (match n.tag {
                    Tag::DayRange => crate::analyzer::spec_process_day_range(n) == Err::<
                        Seq<Span<Day>>,
                        RuleError,
                    >(e),
                    Tag::MonthRange => crate::analyzer::spec_process_month_range(n) == Err::<
                        Seq<Span<(u8, Month)>>,
                        RuleError,
                    >(e),
                    Tag::TimeRange => crate::analyzer::spec_process_time_range(n) == Err::<
                        Span<Time>,
                        RuleError,
                    >(e),
                    _ => false,
                }),
            },
            Err(e) => e == RuleError::Parse && spec_hyphen_word(w@, at as int) == Err::<
                RangeItem,
                RuleError,
            >(RuleError::Parse),
        },
{
    if at >= w.len() {
        return Err(RuleError::Parse);
    }
    let left = copy_range(w, 0, at);
    let right = copy_range(w, at + 1, w.len());
    let ld = day_tag_of_word(left.as_slice());
    let rd = day_tag_of_word(right.as_slice());
    match (ld, rd) {
        (Some(lt), Some(rt)) => {
            return Ok(build_day_pair(lt, rt));
        },
        _ => {},
    }
    let lm = month_tag_of_word(left.as_slice());
    let rm = month_tag_of_word(right.as_slice());
    match (lm, rm) {
        (Some(lt), Some(rt)) => {
            return Ok(build_month_pair(lt, rt));
        },
        _ => {},
    }
    if is_timeish(left.as_slice()) && is_timeish(right.as_slice()) {
        return build_time_pair(left.as_slice(), right.as_slice());
    }
    Err(RuleError::Parse)
}

/// How one byte extends a comma split: a comma closes the entry gathered so
/// far, any other byte joins it.
pub open spec fn comma_step(acc: (Seq<Seq<u8>>, Seq<u8>), b: u8) -> (Seq<Seq<u8>>, Seq<u8>) {
    if b == COMMA {
        (acc.0.push(acc.1), Seq::<u8>::empty())
    } else {
        (acc.0, acc.1.push(b))
    }
}

pub open spec fn comma_fold(w: Seq<u8>, acc: (Seq<Seq<u8>>, Seq<u8>)) -> (Seq<Seq<u8>>, Seq<u8>)
    decreases w.len(),
{
    if w.len() == 0 {
        acc
    } else {
        comma_fold(w.skip(1), comma_step(acc, w[0]))
    }
}

/// The entries of a comma list word, in order; a trailing or doubled comma
/// gives an empty entry.
pub open spec fn spec_comma_entries(w: Seq<u8>) -> Seq<Seq<u8>> {
    let acc = comma_fold(w, (Seq::<Seq<u8>>::empty(), Seq::<u8>::empty()));
    acc.0.push(acc.1)
}

/// The one-day span a day-list entry denotes; entries that name no day do
/// not reach this (the whole word is then no day list).
pub open spec fn spec_day_list_entry(e: Seq<u8>) -> Span<Day> {
    match spec_day_tag(e) {
        Some(t) => match spec_day_from_tag(t) {
            Ok(d) => Span::Range(d, d),
            Err(_) => Span::All,
        },
        None => Span::All,
    }
}

/// The whole-month span a month-list entry denotes.
pub open spec fn spec_month_list_entry(e: Seq<u8>) -> Span<(u8, Month)> {
    match spec_month_tag(e) {
        Some(t) => match spec_month_from_tag(t) {
            Ok(m) => Span::Range((1u8, m), (31u8, m)),
            Err(_) => Span::All,
        },
        None => Span::All,
    }
}

/// The restriction a comma list word denotes: one one-day span per entry if
/// every entry names a day, else one whole-month span per entry if every
/// entry names a month, else a parse error.
pub open spec fn spec_list_word(w: Seq<u8>) -> Result<RangeItem, RuleError> {
    let es = spec_comma_entries(w);
    if forall|i: int| 0 <= i < es.len() ==> (#[trigger] spec_day_tag(es[i])) is Some {
        Ok(RangeItem::Days(es.map(|i: int, e: Seq<u8>| spec_day_list_entry(e))))
    } else if forall|i: int| 0 <= i < es.len() ==> (#[trigger] spec_month_tag(es[i])) is Some {
        Ok(RangeItem::Months(es.map(|i: int, e: Seq<u8>| spec_month_list_entry(e))))
    } else {
        Err(RuleError::Parse)
    }
}

/// A day-range node holding one single-day entry per list entry.
#[verifier::rlimit(100)]
#[verifier::spinoff_prover]
fn build_day_list(entries: &Vec<Vec<u8>>) -> (n: Node)
    requires
        forall|q: int|
            0 <= q < entries@.len() ==> (#[trigger] spec_day_tag(words_view(entries@)[q]))
                is Some,
    ensures
        n.tag == Tag::DayRange,
        crate::analyzer::spec_process_day_range(n) == Ok::<Seq<Span<Day>>, RuleError>(
            words_view(entries@).map(|i: int, e: Seq<u8>| spec_day_list_entry(e)),
        ),
{
    let ghost es = words_view(entries@);
    let mut list: Vec<Node> = Vec::new();
    let mut k: usize = 0;
    proof {
        assert(es.take(0) =~= Seq::<Seq<u8>>::empty());
        assert(crate::analyzer::spec_days_list(list@) == Ok::<Seq<Span<Day>>, RuleError>(
            Seq::<Span<Day>>::empty(),
        ));
        assert(Seq::<Span<Day>>::empty() =~= es.take(0).map(
            |i: int, e: Seq<u8>| spec_day_list_entry(e),
        ));
    }
    while k < entries.len()
        invariant
            0 <= k <= es.len(),
            words_view(entries@) == es,
            entries@.len() == es.len(),
            forall|q: int| 0 <= q < es.len() ==> (#[trigger] spec_day_tag(es[q])) is Some,
            crate::analyzer::spec_days_list(list@) == Ok::<Seq<Span<Day>>, RuleError>(
                es.take(k as int).map(|i: int, e: Seq<u8>| spec_day_list_entry(e)),
            ),
        decreases es.len() - k,
    {
        proof {
            assert(es[k as int] == entries@[k as int]@);
        }
        let t = match day_tag_of_word(entries[k].as_slice()) {
            Some(t) => t,
            None => Tag::Sunday,
        };
        let mut s: Vec<Node> = Vec::new();
        s.push(Node::leaf(t));
        let ghost prior = list@;
        list.push(Node::interior(Tag::DayNode, s));
        proof {
            assert(list@.drop_last() =~= prior);
            assert(es.take(k + 1).map(|i: int, e: Seq<u8>| spec_day_list_entry(e)) =~= es.take(
                k as int,
            ).map(|i: int, e: Seq<u8>| spec_day_list_entry(e)).push(
                spec_day_list_entry(es[k as int]),
            ));
        }
        k += 1;
    }
    proof {
        assert(es.take(es.len() as int) =~= es);
    }
    let mut cs: Vec<Node> = Vec::new();
    cs.push(Node::interior(Tag::Days, list));
    Node::interior(Tag::DayRange, cs)
}

/// A month-range node holding one whole-month entry per list entry.
#[verifier::rlimit(100)]
#[verifier::spinoff_prover]
fn build_month_list(entries: &Vec<Vec<u8>>) -> (n: Node)
    requires
        forall|q: int|
            0 <= q < entries@.len() ==> (#[trigger] spec_month_tag(words_view(entries@)[q]))
                is Some,
    ensures
        n.tag == Tag::MonthRange,
        crate::analyzer::spec_process_month_range(n) == Ok::<Seq<Span<(u8, Month)>>, RuleError>(
            words_view(entries@).map(|i: int, e: Seq<u8>| spec_month_list_entry(e)),
        ),
{
    let ghost es = words_view(entries@);
    let mut list: Vec<Node> = Vec::new();
    let mut k: usize = 0;
    proof {
        assert(es.take(0) =~= Seq::<Seq<u8>>::empty());
        assert(crate::analyzer::spec_months_list(list@) == Ok::<Seq<Month>, RuleError>(
            Seq::<Month>::empty(),
        ));
        assert(Seq::<Month>::empty() =~= es.take(0).map(
            |i: int, e: Seq<u8>| spec_month_from_tag(spec_month_tag(e).unwrap()).unwrap(),
        ));
    }
    while k < entries.len()
        invariant
            0 <= k <= es.len(),
            words_view(entries@) == es,
            entries@.len() == es.len(),
            forall|q: int| 0 <= q < es.len() ==> (#[trigger] spec_month_tag(es[q])) is Some,
            crate::analyzer::spec_months_list(list@) == Ok::<Seq<Month>, RuleError>(
                es.take(k as int).map(
                    |i: int, e: Seq<u8>| spec_month_from_tag(spec_month_tag(e).unwrap()).unwrap(),
                ),
            ),
        decreases es.len() - k,
    {
        proof {
            assert(es[k as int] == entries@[k as int]@);
        }
        let t = match month_tag_of_word(entries[k].as_slice()) {
            Some(t) => t,
            None => Tag::January,
        };
        let mut s: Vec<Node> = Vec::new();
        s.push(Node::leaf(t));
        let ghost prior = list@;
        list.push(Node::interior(Tag::MonthNode, s));
        proof {
            assert(list@.drop_last() =~= prior);
            assert(es.take(k + 1).map(
                |i: int, e: Seq<u8>| spec_month_from_tag(spec_month_tag(e).unwrap()).unwrap(),
            ) =~= es.take(k as int).map(
                |i: int, e: Seq<u8>| spec_month_from_tag(spec_month_tag(e).unwrap()).unwrap(),
            ).push(spec_month_from_tag(spec_month_tag(es[k as int]).unwrap()).unwrap()));
        }
        k += 1;
    }
    proof {
        assert(es.take(es.len() as int) =~= es);
    }
    let mut cs: Vec<Node> = Vec::new();
    cs.push(Node::interior(Tag::Months, list));
    let n = Node::interior(Tag::MonthRange, cs);
    proof {
        assert(es.map(|i: int, e: Seq<u8>| spec_month_list_entry(e)) =~= es.map(
            |i: int, e: Seq<u8>| spec_month_from_tag(spec_month_tag(e).unwrap()).unwrap(),
        ).map(|i: int, m: Month| crate::analyzer::spec_whole_month(m)));
    }
    n
}

/// Reads one comma-separated list word into a day list or a month list. The
/// node it builds denotes exactly the word's restriction.
#[verifier::rlimit(100)]
#[verifier::spinoff_prover]
fn parse_list_word(w: &[u8]) -> (r: Result<Node, RuleError>)
    ensures
        match r {
            Ok(n) => match spec_list_word(w@) {
                Ok(RangeItem::Days(v)) => n.tag == Tag::DayRange
                    && crate::analyzer::spec_process_day_range(n) == Ok::<
                    Seq<Span<Day>>,
                    RuleError,
                >(v),
                Ok(RangeItem::Months(v)) => n.tag == Tag::MonthRange
                    && crate::analyzer::spec_process_month_range(n) == Ok::<
                    Seq<Span<(u8, Month)>>,
                    RuleError,
                >(v),
                _ => false,
            },
            Err(e) => e == RuleError::Parse && spec_list_word(w@) == Err::<RangeItem, RuleError>(
                RuleError::Parse,
            ),
        },
{
    let mut entries: Vec<Vec<u8>> = Vec::new();
    let mut current: Vec<u8> = Vec::new();
    let mut i: usize = 0;
    proof {
        assert(w@.skip(0) =~= w@);
        assert(words_view(entries@) =~= Seq::<Seq<u8>>::empty());
        assert(current@ =~= Seq::<u8>::empty());
    }
    while i < w.len()
        invariant
            0 <= i <= w@.len(),
            comma_fold(w@, (Seq::<Seq<u8>>::empty(), Seq::<u8>::empty())) == comma_fold(
                w@.skip(i as int),
                (words_view(entries@), current@),
            ),
        decreases w@.len() - i,
    {
        proof {
            assert(w@.skip(i as int)[0] == w@[i as int]);
            assert(w@.skip(i as int).skip(1) =~= w@.skip(i as int + 1));
        }
        let ghost pre = (words_view(entries@), current@);
        if w[i] == COMMA {
            let ghost cur = current@;
            entries.push(current);
            current = Vec::new();
            proof {
                assert(words_view(entries@) =~= pre.0.push(cur));
                assert(current@ =~= Seq::<u8>::empty());
                assert((words_view(entries@), current@) == comma_step(pre, w@[i as int]));
            }
        } else {
            current.push(w[i]);
            proof {
                assert((words_view(entries@), current@) == comma_step(pre, w@[i as int]));
            }
        }
        i += 1;
    }
    proof {
        assert(w@.skip(w@.len() as int) =~= Seq::<u8>::empty());
    }
    let ghost pre_entries = words_view(entries@);
    let ghost cur = current@;
    entries.push(current);
    proof {
        assert(words_view(entries@) =~= pre_entries.push(cur));
        assert(words_view(entries@) == spec_comma_entries(w@));
    }
    let ghost es = words_view(entries@);
    let mut all_days = true;
    let mut all_months = true;
    let mut k: usize = 0;
    while k < entries.len()
        invariant
            0 <= k <= es.len(),
            words_view(entries@) == es,
            entries@.len() == es.len(),
            all_days <==> (forall|q: int|
                0 <= q < k ==> (#[trigger] spec_day_tag(es[q])) is Some),
            all_months <==> (forall|q: int|
                0 <= q < k ==> (#[trigger] spec_month_tag(es[q])) is Some),
        decreases es.len() - k,
    {
        proof {
            assert(es[k as int] == entries@[k as int]@);
        }
        if day_tag_of_word(entries[k].as_slice()).is_none() {
            all_days = false;
        }
        if month_tag_of_word(entries[k].as_slice()).is_none() {
            all_months = false;
        }
        k += 1;
    }
    if all_days {
        return Ok(build_day_list(&entries));
    }
    if all_months {
        return Ok(build_month_list(&entries));
    }
    Err(RuleError::Parse)
}

/// A single-entry day list for one bare day word.
fn single_day_range(t: Tag) -> (n: Node)
    ensures
        n.tag == Tag::DayRange,
        crate::analyzer::spec_process_day_range(n) == (match spec_day_from_tag(t) {
            Ok(d) => Ok::<Seq<Span<Day>>, RuleError>(seq![Span::Range(d, d)]),
            Err(e) => Err::<Seq<Span<Day>>, RuleError>(e),
        }),
{
    let mut s: Vec<Node> = Vec::new();
    s.push(Node::leaf(t));
    let mut list: Vec<Node> = Vec::new();
    list.push(Node::interior(Tag::DayNode, s));
    let mut cs: Vec<Node> = Vec::new();
    cs.push(Node::interior(Tag::Days, list));
    let n = Node::interior(Tag::DayRange, cs);
    proof {
        reveal_with_fuel(crate::analyzer::spec_days_list, 3);
        let entries = n.children@[0].children@;
        assert(entries.drop_last() =~= Seq::<Node>::empty());
        match crate::analyzer::spec_process_day_range(n) {
            Ok(v) => {
                assert(v =~= seq![Span::<Day>::Range(
                    spec_day_from_tag(t).unwrap(),
                    spec_day_from_tag(t).unwrap(),
                )]);
            },
            Err(_) => {},
        }
    }
    n
}

/// A single-entry month list for one bare month word.
fn single_month_range(t: Tag) -> (n: Node)
    ensures
        n.tag == Tag::MonthRange,
        crate::analyzer::spec_process_month_range(n) == (match spec_month_from_tag(t) {
            Ok(m) => Ok::<Seq<Span<(u8, Month)>>, RuleError>(
                seq![Span::Range((1u8, m), (31u8, m))],
            ),
            Err(e) => Err::<Seq<Span<(u8, Month)>>, RuleError>(e),
        }),
{
    let mut s: Vec<Node> = Vec::new();
    s.push(Node::leaf(t));
    let mut list: Vec<Node> = Vec::new();
    list.push(Node::interior(Tag::MonthNode, s));
    let mut cs: Vec<Node> = Vec::new();
    cs.push(Node::interior(Tag::Months, list));
    let n = Node::interior(Tag::MonthRange, cs);
    proof {
        reveal_with_fuel(crate::analyzer::spec_months_list, 3);
        let entries = n.children@[0].children@;
        assert(entries.drop_last() =~= Seq::<Node>::empty());
        match crate::analyzer::spec_process_month_range(n) {
            Ok(v) => {
                let m = spec_month_from_tag(t).unwrap();
                assert(crate::analyzer::spec_months_list(entries) == Ok::<Seq<Month>, RuleError>(
                    Seq::<Month>::empty().push(m),
                ));
                assert(v =~= seq![Span::<(u8, Month)>::Range((1u8, m), (31u8, m))]);
            },
            Err(_) => {},
        }
    }
    n
}

/// A day list holding one keyword entry (school days, all days).
fn keyword_day_range(t: Tag) -> (n: Node)
    ensures
        n.tag == Tag::DayRange,
        t == Tag::School ==> crate::analyzer::spec_process_day_range(n) == Ok::<
            Seq<Span<Day>>,
            RuleError,
        >(seq![Span::Range(Day::Monday, Day::Friday)]),
        t == Tag::AllDays ==> crate::analyzer::spec_process_day_range(n) == Ok::<
            Seq<Span<Day>>,
            RuleError,
        >(seq![Span::<Day>::All]),
{
    let mut list: Vec<Node> = Vec::new();
    list.push(Node::leaf(t));
    let mut cs: Vec<Node> = Vec::new();
    cs.push(Node::interior(Tag::Days, list));
    let n = Node::interior(Tag::DayRange, cs);
    proof {
        reveal_with_fuel(crate::analyzer::spec_days_list, 3);
        let entries = n.children@[0].children@;
        assert(entries.drop_last() =~= Seq::<Node>::empty());
        if t == Tag::School {
            assert(crate::analyzer::spec_days_list(entries) == Ok::<Seq<Span<Day>>, RuleError>(
                Seq::<Span<Day>>::empty().push(Span::Range(Day::Monday, Day::Friday)),
            ));
            assert(Seq::<Span<Day>>::empty().push(Span::<Day>::Range(Day::Monday, Day::Friday))
                =~= seq![Span::<Day>::Range(Day::Monday, Day::Friday)]);
        }
        if t == Tag::AllDays {
            assert(crate::analyzer::spec_days_list(entries) == Ok::<Seq<Span<Day>>, RuleError>(
                Seq::<Span<Day>>::empty().push(Span::All),
            ));
            assert(Seq::<Span<Day>>::empty().push(Span::<Day>::All) =~= seq![Span::<Day>::All]);
        }
    }
    n
}

/// The numerator and denominator arithmetic of a duration: numerator hours
/// over the denominator, truncated to whole minutes, with out-of-range
/// numbers, a zero denominator, or an overflowing result as conversion
/// errors.
pub open spec fn spec_duration_value(num_txt: Seq<u8>, den_txt: Option<Seq<u8>>) -> Result<
    TimeLimit,
    RuleError,
> {
    if !number_ok(num_txt, u16::MAX as int) {
        Err(RuleError::FieldConversion)
    } else {
        let num = digits_val(num_txt);
        match den_txt {
            None => if num * 60 > u16::MAX {
                Err(RuleError::FieldConversion)
            } else {
                Ok(TimeLimit::Minutes((num * 60) as u16))
            },
            Some(dt) => if !number_ok(dt, u16::MAX as int) {
                Err(RuleError::FieldConversion)
            } else {
                let den = digits_val(dt);
                if den == 0 {
                    Err(RuleError::FieldConversion)
                } else if num * 60 / den > u16::MAX {
                    Err(RuleError::FieldConversion)
                } else {
                    Ok(TimeLimit::Minutes((num * 60 / den) as u16))
                }
            },
        }
    }
}

/// The time limit a single word denotes once analyzed: digits, optionally
/// split by one solidus into numerator and denominator.
pub open spec fn spec_duration_word(w: Seq<u8>) -> Result<TimeLimit, RuleError> {
    match spec_find_byte(w, SOLIDUS, 0) {
        Some(at) => if at == 0 || at + 1 >= w.len() {
            Err(RuleError::Parse)
        } else {
            spec_duration_value(w.subrange(0, at), Some(w.subrange(at + 1, w.len() as int)))
        },
        None => spec_duration_value(w, None),
    }
}

/// A duration node for a word of digits, optionally split by a solidus. The
/// node it builds denotes exactly the word's time limit.
fn parse_duration_word(w: &[u8]) -> (r: Result<Node, RuleError>)
    ensures
        match r {
            Ok(n) => n.tag == Tag::Duration && crate::analyzer::spec_process_duration(n)
                == spec_duration_word(w@),
            Err(e) => e == RuleError::Parse && spec_duration_word(w@) == Err::<
                TimeLimit,
                RuleError,
            >(RuleError::Parse),
        },
{
    let mut cs: Vec<Node> = Vec::new();
    match find_byte(w, SOLIDUS) {
        Some(at) => {
            if at >= w.len() || at == 0 || at + 1 >= w.len() {
                return Err(RuleError::Parse);
            }
            digit_leaves(&mut cs, w, 0, at);
            let ghost cs1 = cs@;
            cs.push(Node::leaf(Tag::Fraction));
            let ghost cs2 = cs@;
            digit_leaves(&mut cs, w, at + 1, w.len());
            let n = Node::interior(Tag::Duration, cs);
            proof {
                let s = n.children@;
                assert(s.len() == w@.len());
                assert forall|k: int| 0 <= k < at implies (#[trigger] s[k]).tag == Tag::Digit
                    && s[k].text@ == seq![w@[k]] by {
                    assert(cs1[0 + k].tag == Tag::Digit && cs1[0 + k].text@ == seq![w@[0 + k]]);
                    assert(s[k] == cs2[k]);
                }
                assert(s[at as int].tag == Tag::Fraction);
                assert forall|k: int| at + 1 <= k < s.len() implies (#[trigger] s[k]).tag
                    == Tag::Digit && s[k].text@ == seq![w@[k]] by {
                    assert(s[(at + 1) + (k - at - 1)].tag == Tag::Digit && s[(at + 1) + (k - at
                        - 1)].text@ == seq![w@[(at + 1) + (k - at - 1)]]);
                }
                crate::analyzer::lemma_digit_run_prefix(s, 0, at as int);
                lemma_digit_leaf_concat(s, 0, w@, 0, at as int);
                crate::analyzer::lemma_digit_run_prefix(s, at + 1, s.len() as int);
                lemma_digit_leaf_concat(s, at + 1, w@, at + 1, w@.len() as int);
                assert(crate::analyzer::spec_process_duration(n) == spec_duration_word(w@));
            }
            Ok(n)
        },
        None => {
            digit_leaves(&mut cs, w, 0, w.len());
            let n = Node::interior(Tag::Duration, cs);
            proof {
                let s = n.children@;
                assert(s.len() == w@.len());
                assert forall|k: int| 0 <= k < s.len() implies (#[trigger] s[k]).tag == Tag::Digit
                    && s[k].text@ == seq![w@[k]] by {
                    assert(s[0 + k].tag == Tag::Digit && s[0 + k].text@ == seq![w@[0 + k]]);
                }
                crate::analyzer::lemma_digit_run_prefix(s, 0, s.len() as int);
                lemma_digit_leaf_concat(s, 0, w@, 0, w@.len() as int);
                assert(w@.subrange(0, w@.len() as int) =~= w@);
                assert(crate::analyzer::spec_process_duration(n) == spec_duration_word(w@));
            }
            Ok(n)
        },
    }
}

/// Whether a word is a plain digit run, or two digit runs split by one
/// solidus.
fn is_duration_number(w: &[u8]) -> bool {
    if w.len() == 0 {
        return false;
    }
    match find_byte(w, SOLIDUS) {
        Some(at) => {
            if at >= w.len() || at == 0 || at + 1 >= w.len() {
                return false;
            }
            let num = copy_range(w, 0, at);
            let den = copy_range(w, at + 1, w.len());
            all_digit_bytes(num.as_slice()) && all_digit_bytes(den.as_slice())
        },
        None => all_digit_bytes(w),
    }
}

/// Reads the words of one regulation clause. Consecutive restriction words
/// (day, month and time ranges and day exceptions) group into one range
/// node; any other word closes the open group.
fn parse_regulation(words: &Vec<Vec<u8>>, start: usize, end: usize) -> (r: Result<
    Node,
    RuleError,
>)
    requires
        start <= end <= words@.len(),
    ensures
        match r {
            Err(e) => e == RuleError::Parse,
            Ok(_) => true,
        },
{
    let mut children: Vec<Node> = Vec::new();
    let mut range_items: Vec<Node> = Vec::new();
    let mut w: usize = start;
    while w < end
        invariant
            start <= w <= end <= words@.len(),
        decreases end - w,
    {
        let word = words[w].as_slice();
        let rangey: Option<Node> = if word_is(word, "school") {
            Some(keyword_day_range(Tag::School))
        } else if word_is(word, "all") {
            Some(keyword_day_range(Tag::AllDays))
        } else if word_is(word, "anytime") {
            let mut cs: Vec<Node> = Vec::new();
            cs.push(Node::leaf(Tag::Anytime));
            Some(Node::interior(Tag::TimeRange, cs))
        } else {
            match find_byte(word, HYPHEN) {
                Some(at) => {
                    match parse_hyphen_range(word, at) {
                        Ok(n) => Some(n),
                        Err(e) => {
                            return Err(e);
                        },
                    }
                },
                None => {
                    if find_byte(word, COMMA).is_some() {
                        match parse_list_word(word) {
                            Ok(n) => Some(n),
                            Err(e) => {
                                return Err(e);
                            },
                        }
                    } else {
                        match day_tag_of_word(word) {
                            Some(t) => Some(single_day_range(t)),
                            None => {
                                match month_tag_of_word(word) {
                                    Some(t) => Some(single_month_range(t)),
                                    None => None,
                                }
                            },
                        }
                    }
                },
            }
        };
        match rangey {
            Some(n) => {
                range_items.push(n);
                w += 1;
                continue ;
            },
            None => {},
        }
        if word_is(word, "except") {
            if w + 1 < end {
                let next = words[w + 1].as_slice();
                match day_tag_of_word(next) {
                    Some(t) => {
                        let mut s: Vec<Node> = Vec::new();
                        s.push(Node::leaf(t));
                        let mut dn: Vec<Node> = Vec::new();
                        dn.push(Node::interior(Tag::DayNode, s));
                        range_items.push(Node::interior(Tag::ExceptionDay, dn));
                        w += 2;
                        continue ;
                    },
                    None => {},
                }
                match vehicle_tag_of_word(next) {
                    Some(t) => {
                        if range_items.len() > 0 {
                            children.push(Node::interior(Tag::Range, range_items));
                            range_items = Vec::new();
                        }
                        let mut v: Vec<Node> = Vec::new();
                        v.push(Node::leaf(t));
                        let mut m: Vec<Node> = Vec::new();
                        m.push(Node::interior(Tag::VehicleException, v));
                        children.push(Node::interior(Tag::VehicleModifier, m));
                        w += 2;
                        continue ;
                    },
                    None => {},
                }
            }
            return Err(RuleError::Parse);
        }
        // From here on the word is not a restriction: close the open group.
        if range_items.len() > 0 {
            children.push(Node::interior(Tag::Range, range_items));
            range_items = Vec::new();
        }
        if word_is(word, "no") {
            children.push(Node::leaf(Tag::Negative));
        } else if word_is(word, "parking") {
            children.push(Node::leaf(Tag::Parking));
        } else if word_is(word, "standing") {
            children.push(Node::leaf(Tag::Standing));
        } else if word_is(word, "stopping") {
            children.push(Node::leaf(Tag::Stopping));
        } else if word_is(word, "metered") {
            children.push(Node::leaf(Tag::Metered));
        } else if is_duration_number(word) && w + 1 < end && (word_is(
            words[w + 1].as_slice(),
            "hour",
        ) || word_is(words[w + 1].as_slice(), "hours") || word_is(words[w + 1].as_slice(), "hr")) {
            match parse_duration_word(word) {
                Ok(n) => {
                    children.push(n);
                },
                Err(e) => {
                    return Err(e);
                },
            }
            w += 2;
            continue ;
        } else {
            let veh = vehicle_tag_of_word(word);
            match veh {
                Some(t) => {
                    if w + 1 < end && word_is(words[w + 1].as_slice(), "only") {
                        let mut v: Vec<Node> = Vec::new();
                        v.push(Node::leaf(t));
                        let mut m: Vec<Node> = Vec::new();
                        m.push(Node::interior(Tag::VehicleOnly, v));
                        children.push(Node::interior(Tag::VehicleModifier, m));
                        w += 2;
                        continue ;
                    }
                    return Err(RuleError::Parse);
                },
                None => {
                    return Err(RuleError::Parse);
                },
            }
        }
        w += 1;
    }
    if range_items.len() > 0 {
        children.push(Node::interior(Tag::Range, range_items));
    }
    Ok(Node::interior(Tag::Regulation, children))
}

/// The grammar's entry point.
pub struct RuleParser;

impl RuleParser {
    /// Parses a whole input as one top-level production: regulations
    /// separated by arrows. A grammar mismatch anywhere fails the whole
    /// input; an empty input parses to a top-level node with no children.
    pub fn parse(input: &str) -> (r: Result<Node, RuleError>)
        ensures
            match r {
                Ok(t) => t.tag == Tag::Base && (input.spec_bytes().len() == 0
                    ==> t.children@.len() == 0),
                Err(e) => e == RuleError::Parse,
            },
            input.spec_bytes().len() == 0 ==> r is Ok,
    {
        let bytes = input.as_bytes();
        let words = split_words(bytes);
        let mut children: Vec<Node> = Vec::new();
        let mut w: usize = 0;
        while w < words.len()
            invariant
                0 <= w <= words@.len(),
                words@.len() == 0 ==> children@.len() == 0,
                input.spec_bytes().len() == 0 ==> words@.len() == 0,
            decreases words@.len() - w,
        {
            let mut is_arrow = words[w].len() == 2 && words[w][0] == HYPHEN;
            if is_arrow {
                is_arrow = words[w][1] == GREATER;
            }
            if is_arrow {
                children.push(Node::leaf(Tag::Arrow));
                w += 1;
            } else {
                let mut e: usize = w + 1;
                while e < words.len()
                    invariant
                        w + 1 <= e <= words@.len(),
                    decreases words@.len() - e,
                {
                    let mut arrow = words[e].len() == 2 && words[e][0] == HYPHEN;
                    if arrow {
                        arrow = words[e][1] == GREATER;
                    }
                    if arrow {
                        break ;
                    }
                    e += 1;
                }
                match parse_regulation(&words, w, e) {
                    Ok(n) => {
                        children.push(n);
                    },
                    Err(err) => {
                        return Err(err);
                    },
                }
                w = e;
            }
        }
        Ok(Node::interior(Tag::Base, children))
    }
}

} // verus!
