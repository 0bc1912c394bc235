use wasabi::web::quality::rank;

/// The rank of a number in single precision: its position among those that are not negative.
fn expected(text: &str) -> Option<u32> {
    match text.parse::<f32>() {
        Ok(n) if n > 0.0 => Some(n.to_bits()),
        Ok(_) => Some(0),
        Err(_) => None,
    }
}

fn agrees(text: &str) {
    assert_eq!(rank(text), expected(text), "{text:?}");
}

#[test]
fn qualities_have_the_rank_of_their_number() {
    for text in [
        "0", "1", "0.5", "0.9", "0.1", "0.001", "1.0", "1.", ".5", "00.50", "2", "10", "3.14159",
        "0.30000001", "0.300000012", "16777216", "16777217", "16777218", "16777219", "123456789",
    ] {
        agrees(text);
    }
}

#[test]
fn exponents_and_signs_count() {
    for text in [
        "1e0", "1E1", "1e-1", "+1", "-1", "+.5e+3", "-0", "+0", "1e38", "3.4028235e38",
        "3.4028236e38", "3.40282356e38", "3.40282357e38", "1e39", "1e999999999999999999999999999",
        "1e-45", "7e-46", "7.1e-46", "1e-46", "1e-999999999999999999999999999", "1.17549435e-38",
        "1.1754942e-38", "1.4e-45", "0e99999999999999999999999999999", "0.0000e-9999999999999",
        "100000000000000000000000000000000000000000000000000e-50",
        "0.00000000000000000000000000000000000000000000000001e50",
    ] {
        agrees(text);
    }
}

#[test]
fn ties_go_to_the_even_neighbour() {
    for text in [
        "16777217", "16777219", "33554434", "33554438", "0.500000029802322387695312500",
        "0.500000029802322387695312501", "0.500000029802322387695312499",
        "1.00000005960464477539062500", "1.00000017881393432617187500",
        "7.00649232162408535461864791644958065640130970938257885878534141944895541342930300743319094181060791015625e-46",
        "7.00649232162408535461864791644958065640130970938257885878534141944895541342930300743319094181060791015626e-46",
    ] {
        agrees(text);
    }
}

#[test]
fn words_for_infinity_and_no_number() {
    for text in [
        "inf", "INF", "+inf", "-inf", "infinity", "Infinity", "-INFINITY", "nan", "NaN", "-nan",
        "+NAN", "infinit", "in", "na", "infinityy",
    ] {
        agrees(text);
    }
}

#[test]
fn other_texts_are_no_number() {
    for text in [
        "", ".", "+", "-", "e", "e5", ".e1", "1e", "1e+", "1e-", "1.2.3", "1,5", " 1", "1 ", "0x1",
        "1_000", "bogus", "++1", "+-1", "1e1.5", "1ee1", "--", "1f", "\u{661}", "½",
    ] {
        agrees(text);
    }
}

#[test]
fn many_numbers_agree() {
    let mut state: u64 = 0x9e37_79b9_7f4a_7c15;
    for _ in 0..400 {
        state = state.wrapping_mul(6364136223846793005).wrapping_add(1442695040888963407);
        let digits = state >> 24;
        let exponent = ((state >> 8) % 90) as i64 - 60;
        agrees(&format!("{digits}e{exponent}"));
        agrees(&format!("0.{digits}"));
        agrees(&format!("{}.{}", digits % 1000, digits / 1000));
        let bits = (state >> 33) as u32 % 0x7f80_0000;
        agrees(&format!("{}", f32::from_bits(bits)));
        agrees(&format!("{:e}", f32::from_bits(bits)));
    }
}
