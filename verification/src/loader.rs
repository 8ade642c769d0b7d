//! What the settings of a load ask for: how states and caches are stored, and
//! how the layers are split over devices.

use crate::text;
use crate::text::decimal;
use crate::turn_cache::opt_str;
use vstd::prelude::*;

verus! {

/// How a DeltaNet state is stored.
#[derive(Debug, Clone, Copy, PartialEq, Eq, Structural)]
pub enum StateQuant {
    FP32,
    Q8,
    Q4,
}

/// The state storage that a setting names; without one, or with an empty or
/// automatic one, eight bits.
pub open spec fn state_quant_of(mode: Option<Seq<char>>) -> Option<StateQuant> {
    match mode {
        None => Some(StateQuant::Q8),
        Some(s) => {
            let m = text::ascii_lower(s);
            if m == ""@ || m == "auto"@ || m == "q8"@ || m == "int8"@ {
                Some(StateQuant::Q8)
            } else if m == "fp32"@ || m == "f32"@ {
                Some(StateQuant::FP32)
            } else if m == "q4"@ || m == "int4"@ {
                Some(StateQuant::Q4)
            } else {
                None
            }
        },
    }
}

/// Reads the setting of the DeltaNet state's storage.
pub fn parse_state_quant(mode: Option<&str>) -> (r: Result<StateQuant, String>)
    ensures
        match state_quant_of(opt_str(mode)) {
            Some(q) => r == Ok::<StateQuant, String>(q),
            None => r is Err && r->Err_0@ == "unsupported DeltaNet state_quant '"@
                + text::ascii_lower(mode->Some_0@) + "' (expected q8|fp32|q4)"@,
        },
{
    let m = match mode {
        Some(s) => text::to_ascii_lower(s),
        None => {
            return Ok(StateQuant::Q8);
        },
    };
    let m = m.as_str();
    if text::same(m, "") || text::same(m, "auto") || text::same(m, "q8") || text::same(m, "int8") {
        Ok(StateQuant::Q8)
    } else if text::same(m, "fp32") || text::same(m, "f32") {
        Ok(StateQuant::FP32)
    } else if text::same(m, "q4") || text::same(m, "int4") {
        Ok(StateQuant::Q4)
    } else {
        let mut s = "unsupported DeltaNet state_quant '".to_owned();
        s.append(m);
        s.append("' (expected q8|fp32|q4)");
        Err(s)
    }
}

/// The key-value mode: the request's where it names one, else the
/// environment's, else none.
pub open spec fn kv_mode_of(requested: Option<Seq<char>>, environment: Option<Seq<char>>) -> Seq<
    char,
> {
    if requested is Some && requested->Some_0.len() > 0 {
        requested->Some_0
    } else {
        match environment {
            Some(e) => e,
            None => Seq::empty(),
        }
    }
}

/// The key-value mode.
pub fn kv_mode(requested: Option<&str>, environment: Option<&str>) -> (r: String)
    ensures
        r@ == kv_mode_of(opt_str(requested), opt_str(environment)),
{
    match requested {
        Some(s) => {
            if s.unicode_len() > 0 {
                return s.to_owned();
            }
        },
        None => {},
    }
    match environment {
        Some(e) => e.to_owned(),
        None => String::new(),
    }
}

/// Why a text is no number.
#[derive(Debug, Clone, Copy, PartialEq, Eq, Structural)]
pub enum NumberFault {
    Empty,
    InvalidDigit,
    Overflow,
}

impl NumberFault {
    /// The fault's text.
    pub open spec fn text(self) -> Seq<char> {
        match self {
            NumberFault::Empty => "cannot parse integer from empty string"@,
            NumberFault::InvalidDigit => "invalid digit found in string"@,
            NumberFault::Overflow => "number too large to fit in target type"@,
        }
    }

    /// The fault's text.
    pub fn as_text(self) -> (r: &'static str)
        ensures
            r@ == self.text(),
    {
        match self {
            NumberFault::Empty => "cannot parse integer from empty string",
            NumberFault::InvalidDigit => "invalid digit found in string",
            NumberFault::Overflow => "number too large to fit in target type",
        }
    }
}

/// How many digits a text starts with.
pub open spec fn digit_prefix(s: Seq<char>) -> nat
    decreases s.len(),
{
    if s.len() > 0 && text::is_digit(s[0]) {
        1 + digit_prefix(s.subrange(1, s.len() as int))
    } else {
        0
    }
}

/// Why a text is no machine-sized number, read from its start on: digits that
/// grow too large come before a character that is no digit.
pub open spec fn number_fault(s: Seq<char>) -> Option<NumberFault> {
    let d = text::unsigned_digits(s);
    let k = digit_prefix(d);
    if s.len() == 0 {
        Some(NumberFault::Empty)
    } else if text::digits_value(d.subrange(0, k as int)) > usize::MAX {
        Some(NumberFault::Overflow)
    } else if k < d.len() {
        Some(NumberFault::InvalidDigit)
    } else {
        None
    }
}

/// The number that a text without a fault writes.
pub open spec fn number_value(s: Seq<char>) -> nat {
    text::digits_value(text::unsigned_digits(s))
}

proof fn digit_prefix_is(s: Seq<char>, k: int)
    requires
        0 <= k <= s.len(),
        forall|j: int| 0 <= j < k ==> text::is_digit(#[trigger] s[j]),
        k < s.len() ==> !text::is_digit(s[k]),
    ensures
        digit_prefix(s) == k,
    decreases s.len(),
{
    if k > 0 {
        assert(text::is_digit(s[0]));
        let t = s.subrange(1, s.len() as int);
        assert forall|j: int| 0 <= j < k - 1 implies text::is_digit(#[trigger] t[j]) by {
            assert(t[j] == s[j + 1]);
        }
        digit_prefix_is(t, k - 1);
    }
}

proof fn digit_prefix_at_least(s: Seq<char>, k: int)
    requires
        0 <= k <= s.len(),
        forall|j: int| 0 <= j < k ==> text::is_digit(#[trigger] s[j]),
    ensures
        k <= digit_prefix(s) <= s.len(),
        forall|j: int| 0 <= j < digit_prefix(s) ==> text::is_digit(#[trigger] s[j]),
    decreases s.len(),
{
    if s.len() > 0 && text::is_digit(s[0]) {
        let t = s.subrange(1, s.len() as int);
        assert forall|j: int| 0 <= j < k - 1 implies text::is_digit(#[trigger] t[j]) by {
            assert(t[j] == s[j + 1]);
        }
        digit_prefix_at_least(
            t,
            if k > 0 {
                k - 1
            } else {
                0
            },
        );
        assert forall|j: int| 0 <= j < digit_prefix(s) implies text::is_digit(
            #[trigger] s[j],
        ) by {
            if j > 0 {
                assert(s[j] == t[j - 1]);
            }
        }
    } else {
        if k > 0 {
            assert(text::is_digit(s[0]));
        }
    }
}

proof fn prefix_value_grows(s: Seq<char>, a: int, b: int)
    requires
        0 <= a <= b <= s.len(),
    ensures
        text::digits_value(s.subrange(0, a)) <= text::digits_value(s.subrange(0, b)),
    decreases b - a,
{
    if a < b {
        prefix_value_grows(s, a, b - 1);
        assert(s.subrange(0, b).drop_last() =~= s.subrange(0, b - 1));
    }
}

proof fn overflow_is_fault(d: Seq<char>, k: int)
    requires
        0 <= k <= d.len(),
        forall|j: int| 0 <= j < k ==> text::is_digit(#[trigger] d[j]),
        text::digits_value(d.subrange(0, k)) > usize::MAX,
    ensures
        text::digits_value(d.subrange(0, digit_prefix(d) as int)) > usize::MAX,
{
    digit_prefix_at_least(d, k);
    prefix_value_grows(d, k, digit_prefix(d) as int);
}

/// Reads a machine-sized number, or says why the text is none.
#[verifier::spinoff_prover]
pub fn parse_size(s: &str) -> (r: Result<usize, NumberFault>)
    ensures
        match number_fault(s@) {
            Some(f) => r == Err::<usize, NumberFault>(f),
            None => r == Ok::<usize, NumberFault>(number_value(s@) as usize) && number_value(s@)
                <= usize::MAX,
        },
{
    let chars = text::chars_of(s);
    if chars.len() == 0 {
        return Err(NumberFault::Empty);
    }
    let from: usize = if chars.len() > 1 && chars[0] == '+' {
        1
    } else {
        0
    };
    let ghost d = text::unsigned_digits(s@);
    assert(d =~= chars@.subrange(from as int, chars@.len() as int));
    let mut acc: usize = 0;
    let mut i: usize = from;
    assert(d.subrange(0, 0) =~= Seq::<char>::empty());
    while i < chars.len()
        invariant
            from <= i <= chars.len(),
            chars@ == s@,
            chars@.len() > 0,
            d == text::unsigned_digits(s@),
            d == chars@.subrange(from as int, chars@.len() as int),
            forall|j: int| 0 <= j < i - from ==> text::is_digit(#[trigger] d[j]),
            acc == text::digits_value(d.subrange(0, i - from)),
        decreases chars.len() - i,
    {
        let c = chars[i];
        let ghost k = i - from;
        assert(d[k] == c);
        if !('0' <= c && c <= '9') {
            proof {
                digit_prefix_is(d, k);
            }
            return Err(NumberFault::InvalidDigit);
        }
        let v: usize = (c as u32 - '0' as u32) as usize;
        assert(d.subrange(0, k + 1).drop_last() =~= d.subrange(0, k));
        assert(d.subrange(0, k + 1).last() == c);
        assert(text::digits_value(d.subrange(0, k + 1)) == acc * 10 + v);
        if acc > (usize::MAX - v) / 10 {
            proof {
                assert(acc * 10 + v > usize::MAX);
                overflow_is_fault(d, k + 1);
            }
            return Err(NumberFault::Overflow);
        }
        acc = acc * 10 + v;
        i = i + 1;
    }
    proof {
        digit_prefix_is(d, d.len() as int);
        assert(d.subrange(0, d.len() as int) =~= d);
    }
    Ok(acc)
}

/// The sum of a row of numbers.
pub open spec fn sum_of(counts: Seq<nat>) -> nat
    decreases counts.len(),
{
    if counts.len() == 0 {
        0
    } else {
        sum_of(counts.drop_last()) + counts.last()
    }
}

/// What each of several numbers is.
pub open spec fn sizes_view(counts: Seq<usize>) -> Seq<nat> {
    counts.map_values(|c: usize| c as nat)
}

/// Why a split of the layers over devices is refused.
#[derive(Debug, Clone, Copy, PartialEq, Eq, Structural)]
pub enum SplitError {
    /// An entry is no number.
    Parse(NumberFault),
    /// There is not one entry for each device.
    Entries { got: usize, pp: usize },
    /// The entries do not add up to the layers.
    Sum { sum: usize, n_layers: usize },
    /// The entries add up to more than a machine-sized number.
    TooMany,
}

impl SplitError {
    /// The error's text.
    pub open spec fn text(self) -> Seq<char> {
        match self {
            SplitError::Parse(f) => "HIPFIRE_PP_LAYERS parse: "@ + f.text(),
            SplitError::Entries { got, pp } => "HIPFIRE_PP_LAYERS has "@ + decimal(got as nat)
                + " entries, expected pp="@ + decimal(pp as nat),
            SplitError::Sum { sum, n_layers } => "HIPFIRE_PP_LAYERS sum="@ + decimal(sum as nat)
                + " != n_layers="@ + decimal(n_layers as nat),
            SplitError::TooMany => "HIPFIRE_PP_LAYERS sum is too large"@,
        }
    }

    /// The error's text.
    pub fn message(self) -> (r: String)
        ensures
            r@ == self.text(),
    {
        match self {
            SplitError::Parse(f) => {
                let mut s = "HIPFIRE_PP_LAYERS parse: ".to_owned();
                s.append(f.as_text());
                s
            },
            SplitError::Entries { got, pp } => {
                let mut s = "HIPFIRE_PP_LAYERS has ".to_owned();
                text::push_decimal(&mut s, got);
                s.append(" entries, expected pp=");
                text::push_decimal(&mut s, pp);
                s
            },
            SplitError::Sum { sum, n_layers } => {
                let mut s = "HIPFIRE_PP_LAYERS sum=".to_owned();
                text::push_decimal(&mut s, sum);
                s.append(" != n_layers=");
                text::push_decimal(&mut s, n_layers);
                s
            },
            SplitError::TooMany => "HIPFIRE_PP_LAYERS sum is too large".to_owned(),
        }
    }
}

/// The entries of a split: the parts between commas, without white space round them.
pub open spec fn split_entries(spec: Seq<char>) -> Seq<Seq<char>> {
    text::split_on(spec, ',').map_values(|p: Seq<char>| text::trimmed(p))
}

/// The fault of the first of the entries that is no number.
pub open spec fn first_fault(entries: Seq<Seq<char>>) -> Option<NumberFault>
    decreases entries.len(),
{
    if entries.len() == 0 {
        None
    } else {
        match first_fault(entries.drop_last()) {
            Some(f) => Some(f),
            None => number_fault(entries.last()),
        }
    }
}

/// The numbers that the entries write.
pub open spec fn entry_values(entries: Seq<Seq<char>>) -> Seq<nat> {
    entries.map_values(|e: Seq<char>| number_value(e))
}

/// Why a split is refused; nothing where it is not.
pub open spec fn split_refusal(spec: Seq<char>, pp: usize, n_layers: usize) -> Option<SplitError> {
    let entries = split_entries(spec);
    let values = entry_values(entries);
    match first_fault(entries) {
        Some(f) => Some(SplitError::Parse(f)),
        None => if entries.len() != pp {
            Some(SplitError::Entries { got: entries.len() as usize, pp })
        } else if sum_of(values) > usize::MAX {
            Some(SplitError::TooMany)
        } else if sum_of(values) != n_layers {
            Some(SplitError::Sum { sum: sum_of(values) as usize, n_layers })
        } else {
            None
        },
    }
}

proof fn sum_grows(counts: Seq<nat>, k: int)
    requires
        0 <= k <= counts.len(),
    ensures
        sum_of(counts.subrange(0, k)) <= sum_of(counts),
    decreases counts.len(),
{
    if k == counts.len() {
        assert(counts.subrange(0, k) =~= counts);
    } else {
        assert(counts.drop_last().subrange(0, k) =~= counts.subrange(0, k));
        sum_grows(counts.drop_last(), k);
    }
}

proof fn fault_stands(entries: Seq<Seq<char>>, k: int)
    requires
        0 <= k <= entries.len(),
        first_fault(entries.subrange(0, k)) is Some,
    ensures
        first_fault(entries) == first_fault(entries.subrange(0, k)),
    decreases entries.len(),
{
    if k == entries.len() {
        assert(entries.subrange(0, k) =~= entries);
    } else {
        assert(entries.drop_last().subrange(0, k) =~= entries.subrange(0, k));
        fault_stands(entries.drop_last(), k);
    }
}

/// Reads how many layers each device gets: one entry for each device, and
/// together all layers.
pub fn layer_split(spec: &str, pp: usize, n_layers: usize) -> (r: Result<Vec<usize>, SplitError>)
    ensures
        match split_refusal(spec@, pp, n_layers) {
            Some(e) => r == Err::<Vec<usize>, SplitError>(e),
            None => r is Ok && sizes_view(r->Ok_0@) == entry_values(split_entries(spec@)),
        },
{
    let parts = text::split(spec, ',');
    let ghost entries = split_entries(spec@);
    let ghost values = entry_values(entries);
    let mut counts: Vec<usize> = Vec::new();
    let mut i: usize = 0;
    assert(entries.len() == parts@.len());
    assert(sizes_view(counts@) =~= values.subrange(0, 0));
    while i < parts.len()
        invariant
            i <= parts.len(),
            parts@.len() == entries.len(),
            text::parts_view(parts@) == text::split_on(spec@, ','),
            entries == split_entries(spec@),
            values == entry_values(entries),
            first_fault(entries.subrange(0, i as int)) is None,
            counts@.len() == i,
            sizes_view(counts@) == values.subrange(0, i as int),
        decreases parts.len() - i,
    {
        let entry = text::trim(parts[i].as_str());
        proof {
            assert(text::parts_view(parts@)[i as int] == parts@[i as int]@);
            assert(entries[i as int] == entry@);
            assert(entries.subrange(0, i + 1).drop_last() =~= entries.subrange(0, i as int));
            assert(entries.subrange(0, i + 1).last() == entry@);
        }
        match parse_size(entry.as_str()) {
            Ok(n) => {
                let ghost had = counts@;
                counts.push(n);
                assert(values[i as int] == n);
                assert(sizes_view(counts@) =~= values.subrange(0, i + 1));
            },
            Err(f) => {
                proof {
                    fault_stands(entries, i + 1);
                }
                return Err(SplitError::Parse(f));
            },
        }
        i = i + 1;
    }
    assert(entries.subrange(0, entries.len() as int) =~= entries);
    assert(values.subrange(0, values.len() as int) =~= values);
    if counts.len() != pp {
        return Err(SplitError::Entries { got: counts.len(), pp });
    }
    let mut sum: usize = 0;
    let mut j: usize = 0;
    assert(values.subrange(0, 0) =~= Seq::<nat>::empty());
    while j < counts.len()
        invariant
            j <= counts.len(),
            entries == split_entries(spec@),
            values == entry_values(entries),
            first_fault(entries) is None,
            entries.len() == pp,
            sizes_view(counts@) == values,
            counts@.len() == values.len(),
            sum == sum_of(values.subrange(0, j as int)),
        decreases counts.len() - j,
    {
        assert(values.subrange(0, j + 1).drop_last() =~= values.subrange(0, j as int));
        assert(values[j as int] == counts@[j as int]);
        if sum > usize::MAX - counts[j] {
            proof {
                sum_grows(values, j + 1);
            }
            return Err(SplitError::TooMany);
        }
        sum = sum + counts[j];
        j = j + 1;
    }
    assert(values.subrange(0, values.len() as int) =~= values);
    if sum != n_layers {
        return Err(SplitError::Sum { sum, n_layers });
    }
    Ok(counts)
}

/// Which storage a setting names does not depend on upper and lower case, and
/// each storage has its own names.
pub proof fn storage_is_named(s: Seq<char>)
    ensures
        state_quant_of(Some(s)) == Some(StateQuant::FP32) <==> text::ascii_lower(s) == "fp32"@
            || text::ascii_lower(s) == "f32"@,
        state_quant_of(Some(s)) == Some(StateQuant::Q4) <==> text::ascii_lower(s) == "q4"@
            || text::ascii_lower(s) == "int4"@,
        state_quant_of(Some(s)) == Some(StateQuant::Q8) <==> s.len() == 0 || text::ascii_lower(s)
            == "auto"@ || text::ascii_lower(s) == "q8"@ || text::ascii_lower(s) == "int8"@,
        state_quant_of(None) == Some(StateQuant::Q8),
{
    reveal_strlit("");
    reveal_strlit("auto");
    reveal_strlit("q8");
    reveal_strlit("int8");
    reveal_strlit("fp32");
    reveal_strlit("f32");
    reveal_strlit("q4");
    reveal_strlit("int4");
    let m = text::ascii_lower(s);
    assert(m.len() == s.len());
    assert("auto"@[0] == 'a' && "int8"@[0] == 'i' && "fp32"@[0] == 'f' && "int4"@[0] == 'i');
    assert("int8"@[3] == '8' && "int4"@[3] == '4');
    assert("q8"@[1] == '8' && "q4"@[1] == '4');
    assert("f32"@.len() == 3 && "q8"@.len() == 2 && "q4"@.len() == 2);
    assert(s.len() == 0 ==> m =~= ""@);
}

/// A mode that the request names goes before the environment's; an empty one
/// names none.
pub proof fn the_requested_mode_goes_first(requested: Seq<char>, environment: Option<Seq<char>>)
    ensures
        requested.len() > 0 ==> kv_mode_of(Some(requested), environment) == requested,
        requested.len() == 0 ==> kv_mode_of(Some(requested), environment) == kv_mode_of(
            None,
            environment,
        ),
        environment matches Some(e) ==> kv_mode_of(None, environment) == e,
        environment is None ==> kv_mode_of(None, environment).len() == 0,
{
}

/// The decimal digits of a machine-sized number are read back as that number,
/// and those of a larger one are too large.
pub proof fn decimals_are_read_back(n: nat)
    ensures
        n <= usize::MAX ==> number_fault(decimal(n)) is None && number_value(decimal(n)) == n,
        n > usize::MAX ==> number_fault(decimal(n)) == Some(NumberFault::Overflow),
{
    text::decimal_is_digits(n);
    let s = decimal(n);
    assert(text::is_digit(s[0]));
    digit_prefix_is(s, s.len() as int);
    assert(s.subrange(0, s.len() as int) =~= s);
}

/// A number with a character behind it that is no digit is no number.
pub proof fn only_digits_are_numbers(n: nat, c: char)
    requires
        n <= usize::MAX,
        !text::is_digit(c),
    ensures
        number_fault(decimal(n).push(c)) == Some(NumberFault::InvalidDigit),
{
    text::decimal_is_digits(n);
    let s = decimal(n).push(c);
    let k = decimal(n).len() as int;
    assert(text::is_digit(decimal(n)[0]));
    assert(s[0] == decimal(n)[0]);
    assert forall|j: int| 0 <= j < k implies text::is_digit(#[trigger] s[j]) by {
        assert(s[j] == decimal(n)[j]);
    }
    digit_prefix_is(s, k);
    assert(s.subrange(0, k) =~= decimal(n));
}

/// The sum of numbers taken in two parts is the sum of the parts' sums.
pub proof fn sums_add_up(a: Seq<nat>, b: Seq<nat>)
    ensures
        sum_of(a + b) == sum_of(a) + sum_of(b),
        b.len() == 1 ==> sum_of(b) == b[0],
    decreases b.len(),
{
    if b.len() == 0 {
        assert(a + b =~= a);
    } else {
        sums_add_up(a, b.drop_last());
        assert((a + b).drop_last() =~= a + b.drop_last());
        assert((a + b).last() == b.last());
        if b.len() == 1 {
            assert(b.drop_last() =~= Seq::empty());
        }
    }
}

proof fn first_fault_is_first(entries: Seq<Seq<char>>)
    ensures
        first_fault(entries) is None <==> forall|i: int|
            0 <= i < entries.len() ==> number_fault(#[trigger] entries[i]) is None,
        first_fault(entries) matches Some(f) ==> exists|i: int|
            0 <= i < entries.len() && number_fault(#[trigger] entries[i]) == Some(f) && forall|
                j: int,
            |
                0 <= j < i ==> number_fault(#[trigger] entries[j]) is None,
    decreases entries.len(),
{
    if entries.len() > 0 {
        let init = entries.drop_last();
        first_fault_is_first(init);
        assert forall|i: int| 0 <= i < init.len() implies #[trigger] init[i] == entries[i] by {}
        assert(entries.last() == entries[entries.len() - 1]);
        match first_fault(init) {
            Some(f) => {
                let i = choose|i: int|
                    0 <= i < init.len() && number_fault(#[trigger] init[i]) == Some(f) && forall|
                        j: int,
                    |
                        0 <= j < i ==> number_fault(#[trigger] init[j]) is None;
                assert(number_fault(entries[i]) == Some(f));
                assert forall|j: int| 0 <= j < i implies number_fault(
                    #[trigger] entries[j],
                ) is None by {
                    assert(number_fault(init[j]) is None);
                }
            },
            None => {
                assert forall|j: int| 0 <= j < init.len() implies number_fault(
                    #[trigger] entries[j],
                ) is None by {
                    assert(number_fault(init[j]) is None);
                }
            },
        }
    }
}

/// A split that is taken has one number for each device, and together they are
/// all the layers, none twice and none left out; any other is refused, for its
/// first entry that is no number before anything else.
pub proof fn taken_splits_cover_the_layers(spec: Seq<char>, pp: usize, n_layers: usize)
    ensures
        split_refusal(spec, pp, n_layers) is None ==> {
            &&& split_entries(spec).len() == pp
            &&& entry_values(split_entries(spec)).len() == pp
            &&& sum_of(entry_values(split_entries(spec))) == n_layers
            &&& forall|i: int|
                0 <= i < pp ==> number_fault(#[trigger] split_entries(spec)[i]) is None
        },
        (exists|i: int|
            0 <= i < split_entries(spec).len() && number_fault(
                #[trigger] split_entries(spec)[i],
            ) is Some) <==> split_refusal(spec, pp, n_layers) matches Some(SplitError::Parse(_)),
        split_refusal(spec, pp, n_layers) is Some && !(split_refusal(
            spec,
            pp,
            n_layers,
        ) matches Some(SplitError::Parse(_))) ==> split_entries(spec).len() != pp || sum_of(
            entry_values(split_entries(spec)),
        ) != n_layers,
{
    first_fault_is_first(split_entries(spec));
}

/// Each fault has the text of std's own.
pub proof fn faults_have_their_texts(fault: NumberFault)
    ensures
        fault is Empty <==> fault.text() == "cannot parse integer from empty string"@,
        fault is InvalidDigit <==> fault.text() == "invalid digit found in string"@,
        fault is Overflow <==> fault.text() == "number too large to fit in target type"@,
{
    reveal_strlit("cannot parse integer from empty string");
    reveal_strlit("invalid digit found in string");
    reveal_strlit("number too large to fit in target type");
    assert("cannot parse integer from empty string"@[0] == 'c' && "invalid digit found in string"@[0]
        == 'i' && "number too large to fit in target type"@[0] == 'n');
}

/// The digits that a text starts with end where it ends or has something else.
pub proof fn leading_digits_are_counted(digits: Seq<char>, rest: Seq<char>)
    requires
        text::all_digits(digits),
        rest.len() > 0 ==> !text::is_digit(rest[0]),
    ensures
        digit_prefix(digits + rest) == digits.len(),
    decreases digits.len(),
{
    let all = digits + rest;
    if digits.len() > 0 {
        let tail = digits.subrange(1, digits.len() as int);
        assert(all.subrange(1, all.len() as int) =~= tail + rest);
        assert(text::is_digit(digits[0]));
        assert forall|i: int| 0 <= i < tail.len() implies text::is_digit(#[trigger] tail[i]) by {
            assert(text::is_digit(digits[i + 1]));
        }
        leading_digits_are_counted(tail, rest);
    } else {
        assert(all =~= rest);
    }
}

} // verus!
