use vstd::prelude::*;
use vstd::utf8::is_ascii_chars;
use crate::gui::CalculatorState;

verus! {

/// The text a key types when second is off.
pub open spec fn normal_key_text(key: u8) -> Option<Seq<char>> {
    if key == 2 {
        Some(seq!['.'])
    } else if key == 3 {
        Some(seq!['0'])
    } else if key == 8 {
        Some(seq!['7'])
    } else if key == 9 {
        Some(seq!['8'])
    } else if key == 10 {
        Some(seq!['9'])
    } else if key == 14 {
        Some(seq!['4'])
    } else if key == 15 {
        Some(seq!['5'])
    } else if key == 16 {
        Some(seq!['6'])
    } else if key == 20 {
        Some(seq!['1'])
    } else if key == 21 {
        Some(seq!['2'])
    } else if key == 22 {
        Some(seq!['3'])
    } else if key == 29 {
        Some(seq!['+'])
    } else if key == 23 {
        Some(seq!['-'])
    } else if key == 17 {
        Some(seq!['*'])
    } else if key == 11 {
        Some(seq!['/'])
    } else if key == 25 {
        Some(seq!['('])
    } else if key == 26 {
        Some(seq!['s', 'i', 'n', '('])
    } else if key == 27 {
        Some(seq!['c', 'o', 's', '('])
    } else if key == 28 {
        Some(seq!['t', 'a', 'n', '('])
    } else if key == 7 {
        Some(seq!['X'])
    } else if key == 1 {
        Some(seq!['Y'])
    } else if key == 31 {
        Some(seq!['g', 'a', 'm', 'm', 'a', '('])
    } else if key == 32 {
        Some(seq!['^'])
    } else if key == 33 {
        Some(seq!['^', '2'])
    } else if key == 34 {
        Some(seq!['l', 'o', 'g', '('])
    } else if key == 35 {
        Some(seq!['e', '^'])
    } else {
        None
    }
}

/// The text a key types when second is on.
pub open spec fn second_key_text(key: u8) -> Option<Seq<char>> {
    if key == 25 {
        Some(seq![')'])
    } else if key == 26 {
        Some(seq!['a', 'r', 'c', 's', 'i', 'n', '('])
    } else if key == 27 {
        Some(seq!['a', 'r', 'c', 'c', 'o', 's', '('])
    } else if key == 28 {
        Some(seq!['a', 'r', 'c', 't', 'a', 'n', '('])
    } else if key == 34 {
        Some(seq!['l', 'n', '('])
    } else {
        None
    }
}

/// The text a key types when second is off.
fn normal_text(key: u8) -> (r: Option<&'static str>)
    ensures
        match r {
            Some(t) => normal_key_text(key) == Some(t@),
            None => normal_key_text(key) is None,
        },
{
    match key {
        2 => {
            proof {
                reveal_strlit(".");
            }
            assert("."@ =~= seq!['.']);
            Some(".")
        },
        3 => {
            proof {
                reveal_strlit("0");
            }
            assert("0"@ =~= seq!['0']);
            Some("0")
        },
        8 => {
            proof {
                reveal_strlit("7");
            }
            assert("7"@ =~= seq!['7']);
            Some("7")
        },
        9 => {
            proof {
                reveal_strlit("8");
            }
            assert("8"@ =~= seq!['8']);
            Some("8")
        },
        10 => {
            proof {
                reveal_strlit("9");
            }
            assert("9"@ =~= seq!['9']);
            Some("9")
        },
        14 => {
            proof {
                reveal_strlit("4");
            }
            assert("4"@ =~= seq!['4']);
            Some("4")
        },
        15 => {
            proof {
                reveal_strlit("5");
            }
            assert("5"@ =~= seq!['5']);
            Some("5")
        },
        16 => {
            proof {
                reveal_strlit("6");
            }
            assert("6"@ =~= seq!['6']);
            Some("6")
        },
        20 => {
            proof {
                reveal_strlit("1");
            }
            assert("1"@ =~= seq!['1']);
            Some("1")
        },
        21 => {
            proof {
                reveal_strlit("2");
            }
            assert("2"@ =~= seq!['2']);
            Some("2")
        },
        22 => {
            proof {
                reveal_strlit("3");
            }
            assert("3"@ =~= seq!['3']);
            Some("3")
        },
        29 => {
            proof {
                reveal_strlit("+");
            }
            assert("+"@ =~= seq!['+']);
            Some("+")
        },
        23 => {
            proof {
                reveal_strlit("-");
            }
            assert("-"@ =~= seq!['-']);
            Some("-")
        },
        17 => {
            proof {
                reveal_strlit("*");
            }
            assert("*"@ =~= seq!['*']);
            Some("*")
        },
        11 => {
            proof {
                reveal_strlit("/");
            }
            assert("/"@ =~= seq!['/']);
            Some("/")
        },
        25 => {
            proof {
                reveal_strlit("(");
            }
            assert("("@ =~= seq!['(']);
            Some("(")
        },
        26 => {
            proof {
                reveal_strlit("sin(");
            }
            assert("sin("@ =~= seq!['s', 'i', 'n', '(']);
            Some("sin(")
        },
        27 => {
            proof {
                reveal_strlit("cos(");
            }
            assert("cos("@ =~= seq!['c', 'o', 's', '(']);
            Some("cos(")
        },
        28 => {
            proof {
                reveal_strlit("tan(");
            }
            assert("tan("@ =~= seq!['t', 'a', 'n', '(']);
            Some("tan(")
        },
        7 => {
            proof {
                reveal_strlit("X");
            }
            assert("X"@ =~= seq!['X']);
            Some("X")
        },
        1 => {
            proof {
                reveal_strlit("Y");
            }
            assert("Y"@ =~= seq!['Y']);
            Some("Y")
        },
        31 => {
            proof {
                reveal_strlit("gamma(");
            }
            assert("gamma("@ =~= seq!['g', 'a', 'm', 'm', 'a', '(']);
            Some("gamma(")
        },
        32 => {
            proof {
                reveal_strlit("^");
            }
            assert("^"@ =~= seq!['^']);
            Some("^")
        },
        33 => {
            proof {
                reveal_strlit("^2");
            }
            assert("^2"@ =~= seq!['^', '2']);
            Some("^2")
        },
        34 => {
            proof {
                reveal_strlit("log(");
            }
            assert("log("@ =~= seq!['l', 'o', 'g', '(']);
            Some("log(")
        },
        35 => {
            proof {
                reveal_strlit("e^");
            }
            assert("e^"@ =~= seq!['e', '^']);
            Some("e^")
        },
        _ => None,
    }
}

/// The text a key types when second is on.
fn second_text(key: u8) -> (r: Option<&'static str>)
    ensures
        match r {
            Some(t) => second_key_text(key) == Some(t@),
            None => second_key_text(key) is None,
        },
{
    match key {
        25 => {
            proof {
                reveal_strlit(")");
            }
            assert(")"@ =~= seq![')']);
            Some(")")
        },
        26 => {
            proof {
                reveal_strlit("arcsin(");
            }
            assert("arcsin("@ =~= seq!['a', 'r', 'c', 's', 'i', 'n', '(']);
            Some("arcsin(")
        },
        27 => {
            proof {
                reveal_strlit("arccos(");
            }
            assert("arccos("@ =~= seq!['a', 'r', 'c', 'c', 'o', 's', '(']);
            Some("arccos(")
        },
        28 => {
            proof {
                reveal_strlit("arctan(");
            }
            assert("arctan("@ =~= seq!['a', 'r', 'c', 't', 'a', 'n', '(']);
            Some("arctan(")
        },
        34 => {
            proof {
                reveal_strlit("ln(");
            }
            assert("ln("@ =~= seq!['l', 'n', '(']);
            Some("ln(")
        },
        _ => None,
    }
}

/// The text the key types in the current keyboard mode.
pub open spec fn key_text(key: u8, second: bool) -> Option<Seq<char>> {
    if second {
        second_key_text(key)
    } else {
        normal_key_text(key)
    }
}

/// The keys type ASCII text only.
pub proof fn lemma_key_text_ascii(key: u8, second: bool)
    ensures
        key_text(key, second) matches Some(t) ==> is_ascii_chars(t) && t.len() <= 7,
{
}

/// No two keys type the same text, with second on or off: each key's text
/// is its own, so the operator keys type four different operators and the
/// digit keys ten different digits.
pub proof fn law_keys_type_different_texts(k1: u8, k2: u8, second: bool)
    requires
        key_text(k1, second) is Some,
        key_text(k1, second) == key_text(k2, second),
    ensures
        k1 == k2,
{
    let t1 = key_text(k1, second)->Some_0;
    let t2 = key_text(k2, second)->Some_0;
    lemma_key_signature(k1, second);
    lemma_key_signature(k2, second);
    assert(text_signature(t1) == text_signature(t2));
}

/// The length of a text, its first character and its fourth (0 when it is
/// shorter): enough to tell the keys' texts apart.
spec fn text_signature(t: Seq<char>) -> (int, int, int) {
    (t.len() as int, t[0] as int, if t.len() > 3 { t[3] as int } else { 0 })
}

/// The key whose text has the given signature.
spec fn key_of_signature(sig: (int, int, int), second: bool) -> int {
    if second {
        if sig.0 == 1 { 25 } else if sig.0 == 3 { 34 } else if sig.2 == 's' as int { 26 } else if sig.2
            == 'c' as int { 27 } else { 28 }
    } else if sig.0 == 1 {
        if sig.1 == '.' as int { 2 } else if sig.1 == '0' as int { 3 } else if sig.1 == '7' as int {
            8
        } else if sig.1 == '8' as int { 9 } else if sig.1 == '9' as int { 10 } else if sig.1
            == '4' as int { 14 } else if sig.1 == '5' as int { 15 } else if sig.1 == '6' as int {
            16
        } else if sig.1 == '1' as int { 20 } else if sig.1 == '2' as int { 21 } else if sig.1
            == '3' as int { 22 } else if sig.1 == '+' as int { 29 } else if sig.1 == '-' as int {
            23
        } else if sig.1 == '*' as int { 17 } else if sig.1 == '/' as int { 11 } else if sig.1
            == '(' as int { 25 } else if sig.1 == 'X' as int { 7 } else if sig.1 == 'Y' as int {
            1
        } else { 32 }
    } else if sig.0 == 2 {
        if sig.1 == '^' as int { 33 } else { 35 }
    } else if sig.0 == 6 {
        31
    } else if sig.1 == 's' as int {
        26
    } else if sig.1 == 'c' as int {
        27
    } else if sig.1 == 't' as int {
        28
    } else {
        34
    }
}

proof fn lemma_key_signature(k: u8, second: bool)
    requires
        key_text(k, second) is Some,
    ensures
        key_of_signature(text_signature(key_text(k, second)->Some_0), second) == k,
{
}

/// The text that key `key` types, which depends on whether second is on.
pub fn get_key_text(key: u8, state: &CalculatorState) -> (r: Option<&'static str>)
    ensures
        match r {
            Some(t) => key_text(key, state.second) == Some(t@),
            None => key_text(key, state.second) is None,
        },
{
    if state.second {
        second_text(key)
    } else {
        normal_text(key)
    }
}

} // verus!
