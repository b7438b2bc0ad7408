//! What the arguments of the command line mean.

use crate::config::{preset_index, Config};
use crate::devices::blackshark_v2_hs::protocol::SIDETONE_MAX;
use crate::devices::{found_views, FoundDevice, FoundView};
use crate::eq::{
    band_label, bands_from, bands_from_at, bands_from_is, builtin_curve, builtin_named, label, Bands, BAND_COUNT, FLAT,
    MAX_GAIN_DB, MIN_GAIN_DB,
};
use crate::text::{
    chars_of, dec, decimal, decimals_read_back, digit_char, hex2, hex_reads_back, is_digit, join, joined,
    lowercase, numbers_read_back, parse_i32, parse_unsigned, same, signed, signed_dec, signed_decimal,
    signed_numbers_read_back, slice_text, split, split_at_char, texts_are_split_at_the_mark, to_lowercase, trim,
    trimmed, unsigned, upper_digit_char, upper_hex2, views,
};
use crate::worker::{choose_device, preferred};
use vstd::prelude::*;
use vstd::string::*;

verus! {

/// `s` in quotation marks, with special characters escaped.
pub uninterp spec fn quoted(s: Seq<char>) -> Seq<char>;

/// The `Debug` format of `str`: the text in quotation marks, with special
/// characters escaped. Which ones are is not said here; the result only has
/// a name.
#[verifier::external_body]
fn quote(s: &str) -> (r: String)
    ensures
        r@ == quoted(s@),
{
    format!("{s:?}")
}

/// What a word for a switch, in lower case, says.
pub open spec fn switch_value(word: Seq<char>) -> Option<bool> {
    if word == "on"@ || word == "1"@ || word == "true"@ || word == "yes"@ || word == "enable"@ || word == "acik"@
        || word == "açık"@ || word == "ac"@ || word == "aç"@ {
        Some(true)
    } else if word == "off"@ || word == "0"@ || word == "false"@ || word == "no"@ || word == "disable"@ || word
        == "kapali"@ || word == "kapalı"@ || word == "kapat"@ {
        Some(false)
    } else {
        None
    }
}

/// What a word for a switch, in lower case, says.
pub fn switch_word(word: &str) -> (r: Option<bool>)
    ensures
        r == switch_value(word@),
{
    if same(word, "on") || same(word, "1") || same(word, "true") || same(word, "yes") || same(word, "enable")
        || same(word, "acik") || same(word, "açık") || same(word, "ac") || same(word, "aç") {
        Some(true)
    } else if same(word, "off") || same(word, "0") || same(word, "false") || same(word, "no") || same(
        word,
        "disable",
    ) || same(word, "kapali") || same(word, "kapalı") || same(word, "kapat") {
        Some(false)
    } else {
        None
    }
}

/// Words that switch on, each beside the one that switches off, in English and
/// in Turkish. A word of neither list says nothing.
pub proof fn switch_words_are_opposites()
    ensures
        switch_value("on"@) == Some(true) && switch_value("off"@) == Some(false),
        switch_value("1"@) == Some(true) && switch_value("0"@) == Some(false),
        switch_value("true"@) == Some(true) && switch_value("false"@) == Some(false),
        switch_value("yes"@) == Some(true) && switch_value("no"@) == Some(false),
        switch_value("enable"@) == Some(true) && switch_value("disable"@) == Some(false),
        switch_value("acik"@) == Some(true) && switch_value("kapali"@) == Some(false),
        switch_value("açık"@) == Some(true) && switch_value("kapalı"@) == Some(false),
        switch_value("ac"@) == Some(true) && switch_value("aç"@) == Some(true) && switch_value("kapat"@) == Some(false),
        switch_value(""@) is None,
{
    reveal_strlit("on");
    reveal_strlit("1");
    reveal_strlit("true");
    reveal_strlit("yes");
    reveal_strlit("enable");
    reveal_strlit("acik");
    reveal_strlit("açık");
    reveal_strlit("ac");
    reveal_strlit("aç");
    reveal_strlit("off");
    reveal_strlit("0");
    reveal_strlit("false");
    reveal_strlit("no");
    reveal_strlit("disable");
    reveal_strlit("kapali");
    reveal_strlit("kapalı");
    reveal_strlit("kapat");
    reveal_strlit("");
    assert("on"@.len() == 2 && "1"@.len() == 1 && "true"@.len() == 4 && "yes"@.len() == 3 && "enable"@.len() == 6);
    assert("acik"@.len() == 4 && "açık"@.len() == 4 && "ac"@.len() == 2 && "aç"@.len() == 2);
    assert("off"@.len() == 3 && "0"@.len() == 1 && "false"@.len() == 5 && "no"@.len() == 2 && "disable"@.len() == 7);
    assert("kapali"@.len() == 6 && "kapalı"@.len() == 6 && "kapat"@.len() == 5 && ""@.len() == 0);
    assert("on"@[0] == 'o' && "ac"@[0] == 'a' && "aç"@[0] == 'a' && "no"@[0] == 'n');
    assert("yes"@[0] == 'y' && "off"@[0] == 'o');
    assert("true"@[0] == 't' && "acik"@[0] == 'a' && "açık"@[0] == 'a');
    assert("1"@[0] == '1' && "0"@[0] == '0');
    assert("enable"@[0] == 'e' && "kapali"@[0] == 'k' && "kapalı"@[0] == 'k');
    assert("false"@[0] == 'f' && "kapat"@[0] == 'k');
}

/// A word switches one way only, whichever list it is in.
pub proof fn switch_words_say_one_thing(word: Seq<char>)
    ensures
        switch_value(word) == Some(true) ==> word == "on"@ || word == "1"@ || word == "true"@ || word == "yes"@
            || word == "enable"@ || word == "acik"@ || word == "açık"@ || word == "ac"@ || word == "aç"@,
        switch_value(word) == Some(false) ==> word == "off"@ || word == "0"@ || word == "false"@ || word == "no"@
            || word == "disable"@ || word == "kapali"@ || word == "kapalı"@ || word == "kapat"@,
{
}

/// A switch: on, off and their like, in English or Turkish. Blanks around
/// the word and the case of its letters do not matter.
pub open spec fn switched(text: Seq<char>) -> Option<bool> {
    switch_value(lowercase(trimmed(text)))
}

pub fn parse_switch(text: &str) -> (r: Option<bool>)
    ensures
        r == switched(text@),
{
    let word = to_lowercase(trim(text).as_str());
    switch_word(word.as_str())
}

/// A byte: hexadecimal behind `0x`, else decimal.
pub open spec fn byte_value(text: Seq<char>) -> Option<nat> {
    let t = trimmed(text);
    if t.len() >= 2 && t[0] == '0' && (t[1] == 'x' || t[1] == 'X') {
        unsigned(t.skip(2), 16, 255)
    } else {
        unsigned(t, 10, 255)
    }
}

pub fn parse_byte(text: &str) -> (r: Result<u8, String>)
    ensures
        match r {
            Ok(v) => byte_value(text@) == Some(v as nat),
            Err(message) => byte_value(text@) is None && message@ == quoted(text@)
                + " is not a byte (use 0x.. hex or 0-255)"@,
        },
{
    let t = trim(text);
    let chars = chars_of(t.as_str());
    let value = if chars.len() >= 2 && chars[0] == '0' && (chars[1] == 'x' || chars[1] == 'X') {
        let digits = slice_text(chars.as_slice(), 2, chars.len());
        assert(digits@ =~= t@.skip(2));
        parse_unsigned(digits.as_str(), 16, 255)
    } else {
        parse_unsigned(t.as_str(), 10, 255)
    };
    match value {
        Some(v) => Ok(v as u8),
        None => {
            let mut message = quote(text);
            message.append(" is not a byte (use 0x.. hex or 0-255)");
            Err(message)
        },
    }
}

/// Every byte can be written in decimal or, behind `0x`, in hexadecimal, and
/// nothing above 255 is one.
pub proof fn bytes_are_written_either_way(n: nat)
    ensures
        n <= 255 ==> byte_value(dec(n)) == Some(n),
        n > 255 ==> byte_value(dec(n)) is None,
        n <= 255 ==> byte_value(seq!['0', 'x'] + hex2(n as u8)) == Some(n),
        n <= 255 ==> byte_value(seq!['0', 'X'] + upper_hex2(n as u8)) == Some(n),
{
    numbers_read_back(n, 255);
    decimals_read_back(n);
    let t = dec(n);
    if t.len() >= 2 {
        assert(is_digit(t[1]));
    }
    if n <= 255 {
        let b = n as u8;
        hex_reads_back(b);
        let low = seq!['0', 'x'] + hex2(b);
        let high = seq!['0', 'X'] + upper_hex2(b);
        assert(low.skip(2) =~= hex2(b));
        assert(high.skip(2) =~= upper_hex2(b));
        assert(low[3] == digit_char((b % 16) as int));
        assert(high[3] == upper_digit_char((b % 16) as int));
        assert(trimmed(low) == low);
        assert(trimmed(high) == high);
    }
}

/// Several bytes; the first that is none is reported.
pub open spec fn bytes_value(texts: Seq<String>) -> Result<Seq<u8>, Seq<char>>
    decreases texts.len(),
{
    if texts.len() == 0 {
        Ok(seq![])
    } else {
        match bytes_value(texts.drop_last()) {
            Err(message) => Err(message),
            Ok(before) => match byte_value(texts.last()@) {
                Some(v) => Ok(before.push(v as u8)),
                None => Err(quoted(texts.last()@) + " is not a byte (use 0x.. hex or 0-255)"@),
            },
        }
    }
}

/// Bytes are read in the order in which they are given, and one that is none
/// spoils them all.
pub proof fn bytes_are_read_in_order(texts: Seq<String>, text: String)
    ensures
        bytes_value(texts) matches Ok(before) ==> {
            &&& byte_value(text@) matches Some(v) ==> bytes_value(texts.push(text)) == Ok::<_, Seq<char>>(
                before.push(v as u8),
            )
            &&& byte_value(text@) is None ==> bytes_value(texts.push(text)) is Err
        },
        bytes_value(texts) matches Err(message) ==> bytes_value(texts.push(text)) == Err::<Seq<u8>, _>(message),
        bytes_value(seq![]) == Ok::<Seq<u8>, Seq<char>>(seq![]),
{
    assert(texts.push(text).drop_last() =~= texts);
}

proof fn bytes_after_failure(texts: Seq<String>, n: int)
    requires
        0 <= n <= texts.len(),
        bytes_value(texts.take(n)) is Err,
    ensures
        bytes_value(texts) == bytes_value(texts.take(n)),
    decreases texts.len() - n,
{
    if n == texts.len() {
        assert(texts.take(n) =~= texts);
    } else {
        assert(texts.take(n + 1).drop_last() =~= texts.take(n));
        bytes_after_failure(texts, n + 1);
    }
}

pub fn parse_bytes(texts: &Vec<String>) -> (r: Result<Vec<u8>, String>)
    ensures
        match r {
            Ok(bytes) => bytes_value(texts@) == Ok::<_, Seq<char>>(bytes@),
            Err(message) => bytes_value(texts@) == Err::<Seq<u8>, _>(message@),
        },
{
    let mut bytes: Vec<u8> = Vec::new();
    let mut i: usize = 0;
    assert(bytes@ =~= seq![]);
    while i < texts.len()
        invariant
            i <= texts@.len(),
            bytes_value(texts@.take(i as int)) == Ok::<_, Seq<char>>(bytes@),
        decreases texts@.len() - i,
    {
        proof {
            assert(texts@.take(i + 1).drop_last() =~= texts@.take(i as int));
            assert(texts@.take(i + 1).last() == texts@[i as int]);
        }
        match parse_byte(texts[i].as_str()) {
            Ok(v) => bytes.push(v),
            Err(message) => {
                proof {
                    bytes_after_failure(texts@, i + 1);
                }
                return Err(message);
            },
        }
        i += 1;
    }
    assert(texts@.take(i as int) =~= texts@);
    Ok(bytes)
}

/// The parts trimmed; empty ones are dropped.
pub open spec fn filled(parts: Seq<Seq<char>>) -> Seq<Seq<char>>
    decreases parts.len(),
{
    if parts.len() == 0 {
        seq![]
    } else if trimmed(parts.last()).len() == 0 {
        filled(parts.drop_last())
    } else {
        filled(parts.drop_last()).push(trimmed(parts.last()))
    }
}

/// The words of the arguments, which may also be separated by commas.
pub open spec fn words(args: Seq<String>) -> Seq<Seq<char>>
    decreases args.len(),
{
    if args.len() == 0 {
        seq![]
    } else {
        words(args.drop_last()) + filled(split(args.last()@, ','))
    }
}

/// The words of one argument more come last, separated by its commas; blanks
/// around a word do not count, and what is empty is no word.
pub proof fn words_come_in_order(args: Seq<String>, arg: String, head: Seq<char>, tail: Seq<char>)
    requires
        !head.contains(','),
        arg@ == head + seq![','] + tail,
        !tail.contains(','),
    ensures
        trimmed(head).len() > 0 && trimmed(tail).len() > 0 ==> words(args.push(arg)) == words(args).push(
            trimmed(head),
        ).push(trimmed(tail)),
        trimmed(head).len() > 0 && trimmed(tail).len() == 0 ==> words(args.push(arg)) == words(args).push(trimmed(head)),
        trimmed(head).len() == 0 && trimmed(tail).len() == 0 ==> words(args.push(arg)) == words(args),
{
    texts_are_split_at_the_mark(head, ',', tail);
    texts_are_split_at_the_mark(tail, ',', tail);
    assert(args.push(arg).drop_last() =~= args);
    let parts = split(arg@, ',');
    assert(parts =~= seq![head, tail]);
    assert(parts.drop_last() =~= seq![head]);
    assert(parts.drop_last().drop_last() =~= seq![]);
    reveal_with_fuel(filled, 3);
    if trimmed(head).len() > 0 && trimmed(tail).len() > 0 {
        assert(words(args.push(arg)) =~= words(args).push(trimmed(head)).push(trimmed(tail)));
    } else if trimmed(head).len() > 0 {
        assert(words(args.push(arg)) =~= words(args).push(trimmed(head)));
    } else if trimmed(tail).len() == 0 {
        assert(words(args.push(arg)) =~= words(args));
    }
}

/// `s` without plus signs at its start.
pub open spec fn without_plus(s: Seq<char>) -> Seq<char>
    decreases s.len(),
{
    if s.len() > 0 && s[0] == '+' {
        without_plus(s.skip(1))
    } else {
        s
    }
}

/// The gain that a word gives.
pub open spec fn gain_value(word: Seq<char>) -> Option<int> {
    signed(without_plus(word), i32::MIN as int, i32::MAX as int)
}

/// Index of the first word at or after `from` that is no number; the length
/// if all are.
pub open spec fn first_odd(ws: Seq<Seq<char>>, from: nat) -> nat
    decreases ws.len() - from,
{
    if from >= ws.len() {
        ws.len()
    } else if gain_value(ws[from as int]) is None {
        from
    } else {
        first_odd(ws, from + 1)
    }
}

/// Is a gain within the hardware range?
pub open spec fn within(gain: int) -> bool {
    MIN_GAIN_DB <= gain <= MAX_GAIN_DB
}

/// Index of the first gain at or after `from` outside the hardware range;
/// the length if there is none.
pub open spec fn first_outside(ws: Seq<Seq<char>>, from: nat) -> nat
    decreases ws.len() - from,
{
    if from >= ws.len() {
        ws.len()
    } else if !within(gain_value(ws[from as int])->0) {
        from
    } else {
        first_outside(ws, from + 1)
    }
}

/// The names of the bands, separated by blanks.
pub open spec fn band_names() -> Seq<char> {
    joined(Seq::new(BAND_COUNT as nat, |i: int| label(i)), " "@)
}

/// The curve that the arguments give, or what is wrong with them: a word
/// that is no number first, then their count, then a gain out of range.
pub open spec fn curve_given(args: Seq<String>) -> Result<Bands, Seq<char>> {
    let ws = words(args);
    let odd = first_odd(ws, 0) as int;
    let outside = first_outside(ws, 0) as int;
    if odd < ws.len() {
        Err(quoted(ws[odd]) + " is not a number"@)
    } else if ws.len() != BAND_COUNT {
        Err("expected 10 values ("@ + band_names() + "), got "@ + dec(ws.len()))
    } else if outside < ws.len() {
        Err(signed_dec(gain_value(ws[outside])->0) + " dB is outside the hardware range -9..6 dB"@)
    } else {
        Ok(bands_from(|i: int| gain_value(ws[i])->0 as i8))
    }
}

proof fn odd_words_are_found(ws: Seq<Seq<char>>, from: nat)
    requires
        from <= ws.len(),
    ensures
        from <= first_odd(ws, from) <= ws.len(),
        first_odd(ws, from) < ws.len() ==> gain_value(ws[first_odd(ws, from) as int]) is None,
        forall|i: int| from <= i < first_odd(ws, from) ==> gain_value(#[trigger] ws[i]) is Some,
        from <= first_outside(ws, from) <= ws.len(),
        first_outside(ws, from) < ws.len() ==> !within(gain_value(ws[first_outside(ws, from) as int])->0),
        forall|i: int| from <= i < first_outside(ws, from) ==> within(gain_value(#[trigger] ws[i])->0),
    decreases ws.len() - from,
{
    if from < ws.len() {
        odd_words_are_found(ws, from + 1);
    }
}

/// Ten numbers from -9 to 6 are a curve, band by band in the order in which
/// they are given; anything else is none.
pub proof fn ten_gains_are_a_curve(args: Seq<String>)
    ensures
        ({
            let ws = words(args);
            &&& curve_given(args) is Ok <==> ws.len() == 10 && forall|i: int|
                0 <= i < 10 ==> (gain_value(#[trigger] ws[i]) matches Some(db) && -9 <= db <= 6)
            &&& curve_given(args) matches Ok(bands) ==> forall|i: int|
                0 <= i < 10 ==> gain_value(ws[i]) == Some((#[trigger] bands@[i]) as int)
        }),
{
    let ws = words(args);
    odd_words_are_found(ws, 0);
    let odd = first_odd(ws, 0) as int;
    let outside = first_outside(ws, 0) as int;
    bands_from_at(|i: int| gain_value(ws[i])->0 as i8);
    if odd < ws.len() {
        assert(gain_value(ws[odd]) is None);
    } else if ws.len() == 10 && outside < ws.len() {
        assert(!within(gain_value(ws[outside])->0));
    } else if ws.len() == 10 {
        assert forall|i: int| 0 <= i < 10 implies (gain_value(#[trigger] ws[i]) matches Some(db) && -9 <= db <= 6) by {
            assert(gain_value(ws[i]) is Some);
            assert(within(gain_value(ws[i])->0));
        }
        let bands = curve_given(args)->Ok_0;
        assert forall|i: int| 0 <= i < 10 implies gain_value(ws[i]) == Some((#[trigger] bands@[i]) as int) by {
            assert(within(gain_value(ws[i])->0));
        }
    }
}

/// A gain is read as the number that it is, with a plus sign or without.
pub proof fn gains_are_read(db: i8)
    ensures
        gain_value(signed_dec(db as int)) == Some(db as int),
        db >= 0 ==> gain_value(seq!['+'] + dec(db as nat)) == Some(db as int),
{
    signed_numbers_read_back(db as int, i32::MIN as int, i32::MAX as int);
    let s = signed_dec(db as int);
    if db >= 0 {
        decimals_read_back(db as nat);
        assert(is_digit(s[0]));
        let plus = seq!['+'] + dec(db as nat);
        assert(plus.skip(1) =~= dec(db as nat));
        assert(without_plus(plus) == without_plus(plus.skip(1)));
        assert(without_plus(s) == s);
    } else {
        assert(s[0] == '-');
        assert(without_plus(s) == s);
    }
}

fn split_words(args: &Vec<String>) -> (r: Vec<String>)
    ensures
        views(r@) == words(args@),
{
    let mut out: Vec<String> = Vec::new();
    let mut i: usize = 0;
    assert(views(out@) =~= words(args@.take(0)));
    while i < args.len()
        invariant
            i <= args@.len(),
            views(out@) == words(args@.take(i as int)),
        decreases args@.len() - i,
    {
        let ghost before = views(out@);
        proof {
            assert(args@.take(i + 1).drop_last() =~= args@.take(i as int));
            assert(args@.take(i + 1).last() == args@[i as int]);
        }
        let parts = split_at_char(args[i].as_str(), ',');
        let ghost all = views(parts@);
        let mut j: usize = 0;
        assert(all.take(0) =~= seq![]);
        assert(before + filled(all.take(0)) =~= before);
        while j < parts.len()
            invariant
                j <= parts@.len(),
                all == views(parts@),
                views(out@) == before + filled(all.take(j as int)),
            decreases parts@.len() - j,
        {
            let ghost so_far = views(out@);
            proof {
                assert(all.take(j + 1).drop_last() =~= all.take(j as int));
                assert(all.take(j + 1).last() == parts@[j as int]@);
            }
            let word = trim(parts[j].as_str());
            if !word.as_str().is_empty() {
                let ghost text = word@;
                out.push(word);
                assert(views(out@) =~= so_far.push(text));
                assert(so_far.push(text) =~= before + filled(all.take(j + 1)));
            }
            j += 1;
        }
        assert(all.take(j as int) =~= all);
        i += 1;
    }
    assert(args@.take(i as int) =~= args@);
    out
}

fn strip_plus(s: &str) -> (r: String)
    ensures
        r@ == without_plus(s@),
{
    let chars = chars_of(s);
    let mut from: usize = 0;
    assert(chars@.skip(0) =~= chars@);
    while from < chars.len() && chars[from] == '+'
        invariant
            from <= chars@.len(),
            without_plus(chars@) == without_plus(chars@.skip(from as int)),
        decreases chars@.len() - from,
    {
        assert(chars@.skip(from as int).skip(1) =~= chars@.skip(from + 1));
        from += 1;
    }
    let rest = slice_text(chars.as_slice(), from, chars.len());
    assert(rest@ =~= chars@.skip(from as int));
    rest
}

/// The names of the bands, separated by blanks.
pub fn eq_band_names() -> (r: String)
    ensures
        r@ == band_names(),
{
    let mut names: Vec<String> = Vec::new();
    let mut i: usize = 0;
    while i < BAND_COUNT
        invariant
            i <= BAND_COUNT,
            views(names@) == Seq::new(i as nat, |j: int| label(j)),
        decreases BAND_COUNT - i,
    {
        let ghost before = views(names@);
        let name = band_label(i);
        let ghost text = name@;
        names.push(name);
        i += 1;
        assert(views(names@) =~= before.push(text));
        assert(before.push(text) =~= Seq::new(i as nat, |j: int| label(j)));
    }
    join(&names, " ")
}

/// Parse the ten gains of `eq set`.
pub fn parse_bands(args: &Vec<String>) -> (r: Result<Bands, String>)
    ensures
        match r {
            Ok(bands) => curve_given(args@) == Ok::<_, Seq<char>>(bands),
            Err(message) => curve_given(args@) == Err::<Bands, _>(message@),
        },
{
    let ws = split_words(args);
    let ghost all = views(ws@);
    let mut values: Vec<i32> = Vec::new();
    let mut i: usize = 0;
    while i < ws.len()
        invariant
            i <= ws@.len(),
            all == views(ws@),
            all == words(args@),
            values@.len() == i,
            first_odd(all, 0) == first_odd(all, i as nat),
            forall|j: int| 0 <= j < i ==> gain_value(#[trigger] all[j]) == Some(values@[j] as int),
        decreases ws@.len() - i,
    {
        assert(all[i as int] == ws@[i as int]@);
        match parse_i32(strip_plus(ws[i].as_str()).as_str()) {
            Some(v) => values.push(v),
            None => {
                let mut message = quote(ws[i].as_str());
                message.append(" is not a number");
                return Err(message);
            },
        }
        i += 1;
    }
    if values.len() != BAND_COUNT {
        let mut message = "expected 10 values (".to_owned();
        message.append(eq_band_names().as_str());
        message.append("), got ");
        message.append(decimal(values.len() as u64).as_str());
        return Err(message);
    }
    let mut bands: Bands = FLAT;
    let mut k: usize = 0;
    while k < BAND_COUNT
        invariant
            k <= BAND_COUNT,
            values@.len() == BAND_COUNT,
            all.len() == BAND_COUNT,
            all == words(args@),
            first_odd(all, 0) == all.len(),
            first_outside(all, 0) == first_outside(all, k as nat),
            forall|j: int| 0 <= j < BAND_COUNT ==> gain_value(#[trigger] all[j]) == Some(values@[j] as int),
            forall|j: int| 0 <= j < k ==> #[trigger] bands@[j] == values@[j],
        decreases BAND_COUNT - k,
    {
        assert(gain_value(all[k as int]) == Some(values@[k as int] as int));
        let v: i32 = values[k];
        if v < MIN_GAIN_DB as i32 || v > MAX_GAIN_DB as i32 {
            let mut message = signed_decimal(v as i64);
            message.append(" dB is outside the hardware range -9..6 dB");
            return Err(message);
        }
        bands[k] = v as i8;
        k += 1;
    }
    proof {
        let f = |j: int| gain_value(all[j])->0 as i8;
        assert forall|j: int| 0 <= j < BAND_COUNT implies #[trigger] bands@[j] == f(j) by {
            assert(gain_value(all[j]) == Some(values@[j] as int));
        }
        bands_from_is(f, bands);
    }
    Ok(bands)
}

/// The curve that a name stands for: a built-in one first, then one that
/// was saved.
pub fn named_curve(name: &str, config: &Config) -> (r: Result<Bands, String>)
    ensures
        ({
            let at = preset_index(config@.user_presets, name@, 0) as int;
            match r {
                Ok(bands) => match builtin_named(name@, 0) {
                    Some(curve) => bands == curve.bands,
                    None => at < config@.user_presets.len() && bands == config@.user_presets[at].bands,
                },
                Err(message) => {
                    &&& builtin_named(name@, 0) is None
                    &&& at == config@.user_presets.len()
                    &&& message@ == "no curve named "@ + quoted(name@) + "; see `synapsectl eq list`"@
                },
            }
        }),
{
    if let Some(curve) = builtin_curve(name) {
        return Ok(curve.bands);
    }
    match config.find_preset(name) {
        Some(preset) => Ok(preset.bands),
        None => {
            let mut message = "no curve named ".to_owned();
            message.append(quote(name).as_str());
            message.append("; see `synapsectl eq list`");
            Err(message)
        },
    }
}

/// What the word of `eq preset` that is no preset is answered.
pub fn unknown_preset(name: &str) -> (message: String)
    ensures
        message@ == "unknown preset "@ + quoted(name@) + "; use music, game, movie, flat or custom"@,
{
    let mut message = "unknown preset ".to_owned();
    message.append(quote(name).as_str());
    message.append("; use music, game, movie, flat or custom");
    message
}

/// What `sidetone` is asked to do.
#[derive(Debug, Clone, Copy, PartialEq, Eq)]
pub enum Sidetone {
    Level(u8),
    Switch(bool),
}

/// A number is a level (0 included); words switch it on or off.
pub open spec fn sidetone_given(value: Seq<char>) -> Result<Sidetone, Seq<char>> {
    match unsigned(trimmed(value), 10, 255) {
        Some(level) => if level <= SIDETONE_MAX {
            Ok(Sidetone::Level(level as u8))
        } else {
            Err("the sidetone level must be 0-15"@)
        },
        None => match switched(value) {
            Some(on) => Ok(Sidetone::Switch(on)),
            None => Err("expected on, off or a level 0-15"@),
        },
    }
}

/// A number up to 15 is a level, a larger one is refused.
pub proof fn sidetone_levels_are_numbers(n: nat)
    ensures
        n <= 15 ==> sidetone_given(dec(n)) == Ok::<_, Seq<char>>(Sidetone::Level(n as u8)),
        15 < n <= 255 ==> sidetone_given(dec(n)) == Err::<Sidetone, _>("the sidetone level must be 0-15"@),
{
    numbers_read_back(n, 255);
}

/// What is no number switches exactly if it is a word for a switch.
pub proof fn sidetone_words_switch(value: Seq<char>)
    requires
        unsigned(trimmed(value), 10, 255) is None,
    ensures
        switched(value) matches Some(on) ==> sidetone_given(value) == Ok::<_, Seq<char>>(Sidetone::Switch(on)),
        switched(value) is None ==> sidetone_given(value) is Err,
{
}

pub fn parse_sidetone(value: &str) -> (r: Result<Sidetone, String>)
    ensures
        match r {
            Ok(s) => sidetone_given(value@) == Ok::<_, Seq<char>>(s),
            Err(message) => sidetone_given(value@) == Err::<Sidetone, _>(message@),
        },
{
    match parse_unsigned(trim(value).as_str(), 10, 255) {
        Some(level) => {
            if level <= SIDETONE_MAX as u64 {
                Ok(Sidetone::Level(level as u8))
            } else {
                Err("the sidetone level must be 0-15".to_owned())
            }
        },
        None => match parse_switch(value) {
            Some(on) => Ok(Sidetone::Switch(on)),
            None => Err("expected on, off or a level 0-15".to_owned()),
        },
    }
}

/// Minutes until power-off; "off" and "never" are zero.
pub open spec fn minutes_given(value: Seq<char>) -> Option<nat> {
    if switched(value) == Some(false) || value == "never"@ {
        Some(0)
    } else {
        unsigned(value, 10, 255)
    }
}

/// A word for off, and "never", mean no power-off; a number up to 255 means
/// that many minutes.
pub proof fn minutes_are_numbers(value: Seq<char>, n: nat)
    ensures
        switched(value) == Some(false) ==> minutes_given(value) == Some(0nat),
        minutes_given("never"@) == Some(0nat),
        switched(dec(n)) != Some(false) && 0 < n <= 255 ==> minutes_given(dec(n)) == Some(n) || dec(n) == "never"@,
        minutes_given(value) matches Some(m) ==> m <= 255,
{
    numbers_read_back(n, 255);
}

pub fn parse_minutes(value: &str) -> (r: Result<u8, String>)
    ensures
        match r {
            Ok(minutes) => minutes_given(value@) == Some(minutes as nat),
            Err(message) => minutes_given(value@) is None && message@ == "expected minutes 1-255 or off"@,
        },
{
    if parse_switch(value) == Some(false) || same(value, "never") {
        return Ok(0);
    }
    match parse_unsigned(value, 10, 255) {
        Some(minutes) => Ok(minutes as u8),
        None => Err("expected minutes 1-255 or off".to_owned()),
    }
}

/// Is `path` the device that `name` means: the path itself, or its end
/// behind a slash?
pub open spec fn is_path(path: Seq<char>, name: Seq<char>) -> bool {
    let tail = seq!['/'] + name;
    path == name || (tail.len() <= path.len() && path.skip(path.len() - tail.len()) == tail)
}

/// Index of the first device at or after `from` that `name` means.
pub open spec fn path_index(found: Seq<FoundView>, name: Seq<char>, from: nat) -> nat
    decreases found.len() - from,
{
    if from >= found.len() {
        found.len()
    } else if is_path(found[from as int].path(), name) {
        from
    } else {
        path_index(found, name, from + 1)
    }
}

/// The device to use: the one that was asked for by number or by path, else
/// the first that is not experimental, else the first.
pub open spec fn selection(found: Seq<FoundDevice>, wanted: Option<Seq<char>>) -> Result<int, Seq<char>> {
    if found.len() == 0 {
        Err("no supported Razer device found (is the dongle plugged in?)"@)
    } else {
        match wanted {
            None => Ok(preferred(found, 0)->0),
            Some(sel) => match unsigned(sel, 10, usize::MAX as nat) {
                Some(index) => if index < found.len() {
                    Ok(index as int)
                } else {
                    Err("no device #"@ + dec(index) + ", see `synapsectl list`"@)
                },
                None => {
                    let at = path_index(found_views(found), sel, 0) as int;
                    if at < found.len() {
                        Ok(at)
                    } else {
                        Err(sel + " is not a supported device, see `synapsectl list`"@)
                    }
                },
            },
        }
    }
}

proof fn paths_are_searched(found: Seq<FoundView>, name: Seq<char>, from: nat)
    requires
        from <= found.len(),
    ensures
        from <= path_index(found, name, from) <= found.len(),
        path_index(found, name, from) < found.len() ==> is_path(
            found[path_index(found, name, from) as int].path(),
            name,
        ),
        forall|i: int| from <= i < path_index(found, name, from) ==> !is_path((#[trigger] found[i]).path(), name),
    decreases found.len() - from,
{
    if from < found.len() {
        paths_are_searched(found, name, from + 1);
    }
}

/// A device is named by its whole path or by the end of it behind a slash.
pub proof fn devices_are_named_by_path(dir: Seq<char>, name: Seq<char>)
    ensures
        is_path(name, name),
        is_path(dir.push('/') + name, name),
        dir.len() > 0 && dir.last() != '/' ==> !is_path(dir + name, name),
{
    let tail = seq!['/'] + name;
    let path = dir.push('/') + name;
    assert(path.skip(path.len() - tail.len()) =~= tail);
    if dir.len() > 0 && dir.last() != '/' {
        let other = dir + name;
        assert(other.len() > name.len());
        assert(other.skip(other.len() - tail.len())[0] == dir.last());
    }
}

/// The device that is used: by number the one at that place of the list, by
/// path the first that goes by it, else the one that is preferred. What was
/// asked for and is not there is an error, and so is an empty list.
pub proof fn devices_are_chosen(found: Seq<FoundDevice>, wanted: Seq<char>, i: nat)
    ensures
        found.len() == 0 ==> selection(found, Some(wanted)) is Err && selection(found, None) is Err,
        found.len() > 0 ==> selection(found, None) == Ok::<int, Seq<char>>(preferred(found, 0)->0),
        i < found.len() && i <= usize::MAX ==> selection(found, Some(dec(i))) == Ok::<int, Seq<char>>(i as int),
        found.len() > 0 && found.len() <= i <= usize::MAX ==> selection(found, Some(dec(i))) is Err,
        found.len() > 0 && unsigned(wanted, 10, usize::MAX as nat) is None ==> match selection(found, Some(wanted)) {
            Ok(at) => 0 <= at < found.len() && is_path(found_views(found)[at].path(), wanted) && forall|j: int|
                0 <= j < at ==> !is_path((#[trigger] found_views(found)[j]).path(), wanted),
            Err(_) => forall|j: int|
                0 <= j < found.len() ==> !is_path((#[trigger] found_views(found)[j]).path(), wanted),
        },
{
    numbers_read_back(i, usize::MAX as nat);
    paths_are_searched(found_views(found), wanted, 0);
}

fn path_matches(path: &str, name: &str) -> (r: bool)
    ensures
        r == is_path(path@, name@),
{
    if same(path, name) {
        return true;
    }
    let mut tail = "/".to_owned();
    tail.append(name);
    proof {
        reveal_strlit("/");
        assert("/"@ =~= seq!['/']);
    }
    let chars = chars_of(path);
    let width: usize = tail.as_str().unicode_len();
    if width > chars.len() {
        return false;
    }
    let end = slice_text(chars.as_slice(), chars.len() - width, chars.len());
    assert(end@ =~= path@.skip(path@.len() - tail@.len()));
    same(end.as_str(), tail.as_str())
}

/// Choose among the devices that were found; `wanted` is an index from
/// `list` or a path.
pub fn select_device(found: &Vec<FoundDevice>, wanted: Option<&str>) -> (r: Result<usize, String>)
    ensures
        match r {
            Ok(i) => i < found@.len() && selection(
                found@,
                match wanted {
                    Some(sel) => Some(sel@),
                    None => None,
                },
            ) == Ok::<int, Seq<char>>(i as int),
            Err(message) => selection(
                found@,
                match wanted {
                    Some(sel) => Some(sel@),
                    None => None,
                },
            ) == Err::<int, Seq<char>>(message@),
        },
{
    if found.len() == 0 {
        return Err("no supported Razer device found (is the dongle plugged in?)".to_owned());
    }
    let sel = match wanted {
        None => {
            return match choose_device(found) {
                Some(i) => Ok(i),
                None => Err("no supported Razer device found (is the dongle plugged in?)".to_owned()),
            };
        },
        Some(sel) => sel,
    };
    if let Some(index) = parse_unsigned(sel, 10, usize::MAX as u64) {
        if index < found.len() as u64 {
            return Ok(index as usize);
        }
        let mut message = "no device #".to_owned();
        message.append(decimal(index).as_str());
        message.append(", see `synapsectl list`");
        return Err(message);
    }
    let mut i: usize = 0;
    let ghost all = found_views(found@);
    while i < found.len()
        invariant
            i <= found@.len(),
            all == found_views(found@),
            path_index(all, sel@, 0) == path_index(all, sel@, i as nat),
            wanted == Some(sel),
            unsigned(sel@, 10, usize::MAX as nat) is None,
        decreases found@.len() - i,
    {
        assert(all[i as int] == found@[i as int]@);
        if path_matches(found[i].path_display().as_str(), sel) {
            return Ok(i);
        }
        i += 1;
    }
    let mut message = sel.to_owned();
    message.append(" is not a supported device, see `synapsectl list`");
    Err(message)
}

/// What `mic-clean` is asked to do.
#[derive(Debug, Clone, Copy, PartialEq, Eq)]
pub enum MicAction {
    Status,
    /// Make the clean microphone the default input.
    Default,
    Enable,
    Disable,
}

pub open spec fn mic_action_given(action: Seq<char>) -> Option<MicAction> {
    if action == "status"@ {
        Some(MicAction::Status)
    } else if action == "default"@ {
        Some(MicAction::Default)
    } else {
        match switched(action) {
            Some(true) => Some(MicAction::Enable),
            Some(false) => Some(MicAction::Disable),
            None => None,
        }
    }
}

/// A switch enables or disables the clean microphone; two words of their own
/// ask for its state and make it the default.
pub proof fn mic_actions_are_told(action: Seq<char>)
    ensures
        mic_action_given("status"@) == Some(MicAction::Status),
        mic_action_given("default"@) == Some(MicAction::Default),
        action != "status"@ && action != "default"@ ==> {
            &&& switched(action) == Some(true) ==> mic_action_given(action) == Some(MicAction::Enable)
            &&& switched(action) == Some(false) ==> mic_action_given(action) == Some(MicAction::Disable)
            &&& switched(action) is None ==> mic_action_given(action) is None
        },
{
    reveal_strlit("status");
    reveal_strlit("default");
    assert("status"@.len() != "default"@.len());
}

pub fn parse_mic_action(action: &str) -> (r: Result<MicAction, String>)
    ensures
        match r {
            Ok(a) => mic_action_given(action@) == Some(a),
            Err(message) => mic_action_given(action@) is None && message@
                == "expected on, off, default or status"@,
        },
{
    if same(action, "status") {
        return Ok(MicAction::Status);
    }
    if same(action, "default") {
        return Ok(MicAction::Default);
    }
    match parse_switch(action) {
        Some(on) => Ok(
            if on {
                MicAction::Enable
            } else {
                MicAction::Disable
            },
        ),
        None => Err("expected on, off, default or status".to_owned()),
    }
}

} // verus!
