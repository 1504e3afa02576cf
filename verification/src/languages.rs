//! Languages and their codes.

use vstd::prelude::*;

use crate::text::{chars_of, lower, same_text, text_opt, to_lower, upper_char, upper_char_spec};

verus! {

/// The English name that `isolang::Language::from_str` and `to_name` give for a
/// language code.
pub uninterp spec fn name_of_code(code: Seq<char>) -> Option<Seq<char>>;

/// The two letters that `isolang::Language::from_str` and `to_639_1` give for a
/// language code.
pub uninterp spec fn letters_of_code(code: Seq<char>) -> Option<Seq<char>>;

/// The two letters that `isolang::Language::from_name` and `to_639_1` give for
/// the English name of a language.
pub uninterp spec fn letters_of_name(name: Seq<char>) -> Option<Seq<char>>;

/// `isolang::Language::from_str`, and `isolang::Language::to_name` of what it
/// returns: a function of the code.
#[verifier::external_body]
pub(crate) fn code_to_name(code: &str) -> (r: Option<String>)
    ensures
        text_opt(r) == name_of_code(code@),
{
    code.parse::<isolang::Language>().ok().map(|l| l.to_name().to_string())
}

/// `isolang::Language::from_str`, and `isolang::Language::to_639_1` of what it
/// returns: a function of the code.
#[verifier::external_body]
pub(crate) fn code_to_letters(code: &str) -> (r: Option<String>)
    ensures
        text_opt(r) == letters_of_code(code@),
{
    code.parse::<isolang::Language>().ok().and_then(|l| l.to_639_1()).map(|s| s.to_string())
}

/// `isolang::Language::from_name`, and `isolang::Language::to_639_1` of what it
/// returns: a function of the name.
#[verifier::external_body]
pub(crate) fn name_to_letters(name: &str) -> (r: Option<String>)
    ensures
        text_opt(r) == letters_of_name(name@),
{
    isolang::Language::from_name(name).and_then(|l| l.to_639_1()).map(|s| s.to_string())
}

/// The terminological code of a language that also has a bibliographic one.
pub open spec fn normalized(code: Seq<char>) -> Seq<char> {
    if code == "alb"@ {
        "sqi"@
    } else if code == "arm"@ {
        "hye"@
    } else if code == "baq"@ {
        "eus"@
    } else if code == "bur"@ {
        "mya"@
    } else if code == "chi"@ {
        "zho"@
    } else if code == "cze"@ {
        "ces"@
    } else if code == "dut"@ {
        "nld"@
    } else if code == "fre"@ {
        "fra"@
    } else if code == "geo"@ {
        "kat"@
    } else if code == "ger"@ {
        "deu"@
    } else if code == "gre"@ {
        "ell"@
    } else if code == "ice"@ {
        "isl"@
    } else if code == "mac"@ {
        "mkd"@
    } else if code == "mao"@ {
        "mri"@
    } else if code == "may"@ {
        "msa"@
    } else if code == "per"@ {
        "fas"@
    } else if code == "rum"@ {
        "ron"@
    } else if code == "slo"@ {
        "slk"@
    } else if code == "tib"@ {
        "bod"@
    } else if code == "wel"@ {
        "cym"@
    } else {
        code
    }
}

pub fn normalize_lang(code: &str) -> (r: &str)
    ensures
        r@ == normalized(code@),
{
    if same_text(code, "alb") {
        "sqi"
    } else if same_text(code, "arm") {
        "hye"
    } else if same_text(code, "baq") {
        "eus"
    } else if same_text(code, "bur") {
        "mya"
    } else if same_text(code, "chi") {
        "zho"
    } else if same_text(code, "cze") {
        "ces"
    } else if same_text(code, "dut") {
        "nld"
    } else if same_text(code, "fre") {
        "fra"
    } else if same_text(code, "geo") {
        "kat"
    } else if same_text(code, "ger") {
        "deu"
    } else if same_text(code, "gre") {
        "ell"
    } else if same_text(code, "ice") {
        "isl"
    } else if same_text(code, "mac") {
        "mkd"
    } else if same_text(code, "mao") {
        "mri"
    } else if same_text(code, "may") {
        "msa"
    } else if same_text(code, "per") {
        "fas"
    } else if same_text(code, "rum") {
        "ron"
    } else if same_text(code, "slo") {
        "slk"
    } else if same_text(code, "tib") {
        "bod"
    } else if same_text(code, "wel") {
        "cym"
    } else {
        code
    }
}

/// A word with its first letter as an ASCII capital.
pub open spec fn capitalized(s: Seq<char>) -> Seq<char> {
    if s.len() == 0 {
        s
    } else {
        seq![upper_char_spec(s[0])] + s.skip(1)
    }
}

fn capitalize(s: &str) -> (r: String)
    ensures
        r@ == capitalized(s@),
{
    let chars = chars_of(s);
    let mut r = String::new();
    if chars.len() > 0 {
        r.push(upper_char(chars[0]));
        r.append(crate::text::slice(&chars, 1, chars.len()).as_str());
    }
    assert(r@ =~= capitalized(s@));
    r
}

/// The two letters of a language that is given by its code or by its English
/// name, in any case.
pub open spec fn two_letters(s: Seq<char>) -> Option<Seq<char>> {
    match letters_of_code(normalized(lower(s))) {
        Some(letters) => Some(letters),
        None => letters_of_name(capitalized(lower(s))),
    }
}

pub fn lang_to_two_letter(s: &str) -> (r: Option<String>)
    ensures
        text_opt(r) == two_letters(s@),
{
    let low = to_lower(s);
    match code_to_letters(normalize_lang(low.as_str())) {
        Some(letters) => Some(letters),
        None => name_to_letters(capitalize(low.as_str()).as_str()),
    }
}

/// The code that bibliographies have for a language is replaced by the one that its own
/// name gives, and no other code is; nothing is left to replace then.
pub proof fn law_bibliographic_codes_are_replaced(code: Seq<char>)
    ensures
        code == "alb"@ ==> normalized(code) == "sqi"@,
        code == "arm"@ ==> normalized(code) == "hye"@,
        code == "baq"@ ==> normalized(code) == "eus"@,
        code == "bur"@ ==> normalized(code) == "mya"@,
        code == "chi"@ ==> normalized(code) == "zho"@,
        code == "cze"@ ==> normalized(code) == "ces"@,
        code == "dut"@ ==> normalized(code) == "nld"@,
        code == "fre"@ ==> normalized(code) == "fra"@,
        code == "geo"@ ==> normalized(code) == "kat"@,
        code == "ger"@ ==> normalized(code) == "deu"@,
        code == "gre"@ ==> normalized(code) == "ell"@,
        code == "ice"@ ==> normalized(code) == "isl"@,
        code == "mac"@ ==> normalized(code) == "mkd"@,
        code == "mao"@ ==> normalized(code) == "mri"@,
        code == "may"@ ==> normalized(code) == "msa"@,
        code == "per"@ ==> normalized(code) == "fas"@,
        code == "rum"@ ==> normalized(code) == "ron"@,
        code == "slo"@ ==> normalized(code) == "slk"@,
        code == "tib"@ ==> normalized(code) == "bod"@,
        code == "wel"@ ==> normalized(code) == "cym"@,
        code.len() != 3 ==> normalized(code) == code,
        normalized(normalized(code)) == normalized(code),
        normalized(code) != code ==> code.len() == 3 && normalized(code).len() == 3,
{
    reveal_strlit("alb");
    reveal_strlit("sqi");
    reveal_strlit("arm");
    reveal_strlit("hye");
    reveal_strlit("baq");
    reveal_strlit("eus");
    reveal_strlit("bur");
    reveal_strlit("mya");
    reveal_strlit("chi");
    reveal_strlit("zho");
    reveal_strlit("cze");
    reveal_strlit("ces");
    reveal_strlit("dut");
    reveal_strlit("nld");
    reveal_strlit("fre");
    reveal_strlit("fra");
    reveal_strlit("geo");
    reveal_strlit("kat");
    reveal_strlit("ger");
    reveal_strlit("deu");
    reveal_strlit("gre");
    reveal_strlit("ell");
    reveal_strlit("ice");
    reveal_strlit("isl");
    reveal_strlit("mac");
    reveal_strlit("mkd");
    reveal_strlit("mao");
    reveal_strlit("mri");
    reveal_strlit("may");
    reveal_strlit("msa");
    reveal_strlit("per");
    reveal_strlit("fas");
    reveal_strlit("rum");
    reveal_strlit("ron");
    reveal_strlit("slo");
    reveal_strlit("slk");
    reveal_strlit("tib");
    reveal_strlit("bod");
    reveal_strlit("wel");
    reveal_strlit("cym");
    assert("alb"@.len() == 3 && "alb"@[0] == 'a' && "alb"@[1] == 'l' && "alb"@[2] == 'b');
    assert("sqi"@.len() == 3 && "sqi"@[0] == 's' && "sqi"@[1] == 'q' && "sqi"@[2] == 'i');
    assert("arm"@.len() == 3 && "arm"@[0] == 'a' && "arm"@[1] == 'r' && "arm"@[2] == 'm');
    assert("hye"@.len() == 3 && "hye"@[0] == 'h' && "hye"@[1] == 'y' && "hye"@[2] == 'e');
    assert("baq"@.len() == 3 && "baq"@[0] == 'b' && "baq"@[1] == 'a' && "baq"@[2] == 'q');
    assert("eus"@.len() == 3 && "eus"@[0] == 'e' && "eus"@[1] == 'u' && "eus"@[2] == 's');
    assert("bur"@.len() == 3 && "bur"@[0] == 'b' && "bur"@[1] == 'u' && "bur"@[2] == 'r');
    assert("mya"@.len() == 3 && "mya"@[0] == 'm' && "mya"@[1] == 'y' && "mya"@[2] == 'a');
    assert("chi"@.len() == 3 && "chi"@[0] == 'c' && "chi"@[1] == 'h' && "chi"@[2] == 'i');
    assert("zho"@.len() == 3 && "zho"@[0] == 'z' && "zho"@[1] == 'h' && "zho"@[2] == 'o');
    assert("cze"@.len() == 3 && "cze"@[0] == 'c' && "cze"@[1] == 'z' && "cze"@[2] == 'e');
    assert("ces"@.len() == 3 && "ces"@[0] == 'c' && "ces"@[1] == 'e' && "ces"@[2] == 's');
    assert("dut"@.len() == 3 && "dut"@[0] == 'd' && "dut"@[1] == 'u' && "dut"@[2] == 't');
    assert("nld"@.len() == 3 && "nld"@[0] == 'n' && "nld"@[1] == 'l' && "nld"@[2] == 'd');
    assert("fre"@.len() == 3 && "fre"@[0] == 'f' && "fre"@[1] == 'r' && "fre"@[2] == 'e');
    assert("fra"@.len() == 3 && "fra"@[0] == 'f' && "fra"@[1] == 'r' && "fra"@[2] == 'a');
    assert("geo"@.len() == 3 && "geo"@[0] == 'g' && "geo"@[1] == 'e' && "geo"@[2] == 'o');
    assert("kat"@.len() == 3 && "kat"@[0] == 'k' && "kat"@[1] == 'a' && "kat"@[2] == 't');
    assert("ger"@.len() == 3 && "ger"@[0] == 'g' && "ger"@[1] == 'e' && "ger"@[2] == 'r');
    assert("deu"@.len() == 3 && "deu"@[0] == 'd' && "deu"@[1] == 'e' && "deu"@[2] == 'u');
    assert("gre"@.len() == 3 && "gre"@[0] == 'g' && "gre"@[1] == 'r' && "gre"@[2] == 'e');
    assert("ell"@.len() == 3 && "ell"@[0] == 'e' && "ell"@[1] == 'l' && "ell"@[2] == 'l');
    assert("ice"@.len() == 3 && "ice"@[0] == 'i' && "ice"@[1] == 'c' && "ice"@[2] == 'e');
    assert("isl"@.len() == 3 && "isl"@[0] == 'i' && "isl"@[1] == 's' && "isl"@[2] == 'l');
    assert("mac"@.len() == 3 && "mac"@[0] == 'm' && "mac"@[1] == 'a' && "mac"@[2] == 'c');
    assert("mkd"@.len() == 3 && "mkd"@[0] == 'm' && "mkd"@[1] == 'k' && "mkd"@[2] == 'd');
    assert("mao"@.len() == 3 && "mao"@[0] == 'm' && "mao"@[1] == 'a' && "mao"@[2] == 'o');
    assert("mri"@.len() == 3 && "mri"@[0] == 'm' && "mri"@[1] == 'r' && "mri"@[2] == 'i');
    assert("may"@.len() == 3 && "may"@[0] == 'm' && "may"@[1] == 'a' && "may"@[2] == 'y');
    assert("msa"@.len() == 3 && "msa"@[0] == 'm' && "msa"@[1] == 's' && "msa"@[2] == 'a');
    assert("per"@.len() == 3 && "per"@[0] == 'p' && "per"@[1] == 'e' && "per"@[2] == 'r');
    assert("fas"@.len() == 3 && "fas"@[0] == 'f' && "fas"@[1] == 'a' && "fas"@[2] == 's');
    assert("rum"@.len() == 3 && "rum"@[0] == 'r' && "rum"@[1] == 'u' && "rum"@[2] == 'm');
    assert("ron"@.len() == 3 && "ron"@[0] == 'r' && "ron"@[1] == 'o' && "ron"@[2] == 'n');
    assert("slo"@.len() == 3 && "slo"@[0] == 's' && "slo"@[1] == 'l' && "slo"@[2] == 'o');
    assert("slk"@.len() == 3 && "slk"@[0] == 's' && "slk"@[1] == 'l' && "slk"@[2] == 'k');
    assert("tib"@.len() == 3 && "tib"@[0] == 't' && "tib"@[1] == 'i' && "tib"@[2] == 'b');
    assert("bod"@.len() == 3 && "bod"@[0] == 'b' && "bod"@[1] == 'o' && "bod"@[2] == 'd');
    assert("wel"@.len() == 3 && "wel"@[0] == 'w' && "wel"@[1] == 'e' && "wel"@[2] == 'l');
    assert("cym"@.len() == 3 && "cym"@[0] == 'c' && "cym"@[1] == 'y' && "cym"@[2] == 'm');
}

/// The case in which a language is written does not matter. A code is read as one
/// before it is taken for a name, and a name is looked up with a capital.
pub proof fn law_languages_in_any_case(s: Seq<char>, other: Seq<char>)
    ensures
        lower(s) == lower(other) ==> two_letters(s) == two_letters(other),
        lower(s).len() != 3 && letters_of_code(lower(s)) is Some ==> two_letters(s)
            == letters_of_code(lower(s)),
        lower(s) == "ger"@ && letters_of_code("deu"@) is Some ==> two_letters(s) == letters_of_code(
            "deu"@,
        ),
        ({
            let rest = lower(s).skip(1);
            lower(s).len() > 3 && letters_of_code(lower(s)) is None ==> two_letters(s)
                == letters_of_name(seq![upper_char_spec(lower(s)[0])] + rest)
        }),
{
    law_bibliographic_codes_are_replaced(lower(s));
}

} // verus!
