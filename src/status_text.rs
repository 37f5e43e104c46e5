//! Text for the status panel.
use vstd::prelude::*;

verus! {

pub open spec fn digit_char(d: nat) -> char {
    if d == 0 {
        '0'
    } else if d == 1 {
        '1'
    } else if d == 2 {
        '2'
    } else if d == 3 {
        '3'
    } else if d == 4 {
        '4'
    } else if d == 5 {
        '5'
    } else if d == 6 {
        '6'
    } else if d == 7 {
        '7'
    } else if d == 8 {
        '8'
    } else {
        '9'
    }
}

/// The decimal digits of a number below 100.
pub open spec fn decimal_text(n: nat) -> Seq<char> {
    if n < 10 {
        seq![digit_char(n)]
    } else {
        seq![digit_char(n / 10), digit_char(n % 10)]
    }
}

/// A score as text: its decimal digits up to 31, and "32+" above, which
/// no hand of four cards reaches.
pub fn score_to_str(score: u8) -> (r: &'static str)
    ensures
        score <= 31 ==> r@ == decimal_text(score as nat),
        score > 31 ==> r@ == "32+"@,
{
    match score {
        0 => {
            proof { reveal_strlit("0"); }
            "0"
        },
        1 => {
            proof { reveal_strlit("1"); }
            "1"
        },
        2 => {
            proof { reveal_strlit("2"); }
            "2"
        },
        3 => {
            proof { reveal_strlit("3"); }
            "3"
        },
        4 => {
            proof { reveal_strlit("4"); }
            "4"
        },
        5 => {
            proof { reveal_strlit("5"); }
            "5"
        },
        6 => {
            proof { reveal_strlit("6"); }
            "6"
        },
        7 => {
            proof { reveal_strlit("7"); }
            "7"
        },
        8 => {
            proof { reveal_strlit("8"); }
            "8"
        },
        9 => {
            proof { reveal_strlit("9"); }
            "9"
        },
        10 => {
            proof { reveal_strlit("10"); }
            "10"
        },
        11 => {
            proof { reveal_strlit("11"); }
            "11"
        },
        12 => {
            proof { reveal_strlit("12"); }
            "12"
        },
        13 => {
            proof { reveal_strlit("13"); }
            "13"
        },
        14 => {
            proof { reveal_strlit("14"); }
            "14"
        },
        15 => {
            proof { reveal_strlit("15"); }
            "15"
        },
        16 => {
            proof { reveal_strlit("16"); }
            "16"
        },
        17 => {
            proof { reveal_strlit("17"); }
            "17"
        },
        18 => {
            proof { reveal_strlit("18"); }
            "18"
        },
        19 => {
            proof { reveal_strlit("19"); }
            "19"
        },
        20 => {
            proof { reveal_strlit("20"); }
            "20"
        },
        21 => {
            proof { reveal_strlit("21"); }
            "21"
        },
        22 => {
            proof { reveal_strlit("22"); }
            "22"
        },
        23 => {
            proof { reveal_strlit("23"); }
            "23"
        },
        24 => {
            proof { reveal_strlit("24"); }
            "24"
        },
        25 => {
            proof { reveal_strlit("25"); }
            "25"
        },
        26 => {
            proof { reveal_strlit("26"); }
            "26"
        },
        27 => {
            proof { reveal_strlit("27"); }
            "27"
        },
        28 => {
            proof { reveal_strlit("28"); }
            "28"
        },
        29 => {
            proof { reveal_strlit("29"); }
            "29"
        },
        30 => {
            proof { reveal_strlit("30"); }
            "30"
        },
        31 => {
            proof { reveal_strlit("31"); }
            "31"
        },
        _ => "32+",
    }
}

} // verus!
