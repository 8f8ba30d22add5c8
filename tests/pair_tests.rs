use mandelbrot::{parse_pair, split_pair};

#[test]
fn test_parse_pair() {
    assert_eq!(parse_pair::<i32>("", ','), None);
    assert_eq!(parse_pair::<i32>("10,", ','), None);
    assert_eq!(parse_pair::<i32>(",10", ','), None);
    assert_eq!(parse_pair::<i32>("20,10", ','), Some((20, 10)));
    assert_eq!(parse_pair::<i32>("20,10xy", ','), None);
    assert_eq!(parse_pair::<i32>("20x10xy", 'x'), None);
    assert_eq!(parse_pair::<i32>("20x10", 'x'), Some((20, 10)));
}

#[test]
fn no_separator_gives_no_pair() {
    assert_eq!(parse_pair::<i32>("2010", ','), None);
    assert_eq!(parse_pair::<i32>("20x10", ','), None);
    assert_eq!(parse_pair::<usize>("400", 'x'), None);
    assert_eq!(split_pair("abc", ','), None);
    assert_eq!(split_pair("", ','), None);
}

#[test]
fn canonical_forms_read_back() {
    for &(a, b) in &[(0, 0), (-7, 12), (i32::MIN, i32::MAX), (123, -456)] {
        let text = format!("{},{}", a, b);
        assert_eq!(parse_pair::<i32>(&text, ','), Some((a, b)));
        let text = format!("{};{}", a, b);
        assert_eq!(parse_pair::<i32>(&text, ';'), Some((a, b)));
    }
    let text = format!("{}x{}", usize::MAX, 600usize);
    assert_eq!(parse_pair::<usize>(&text, 'x'), Some((usize::MAX, 600)));
}

#[test]
fn separator_inside_first_form_breaks_the_pair() {
    // '-' occurs in "-20", so the split falls before the first digit.
    assert_eq!(parse_pair::<i32>("-20--10", '-'), None);
    assert_eq!(parse_pair::<i32>("20--10", '-'), Some((20, -10)));
}

#[test]
fn signs_and_leading_zeros() {
    assert_eq!(parse_pair::<i32>("+5,-0", ','), Some((5, 0)));
    assert_eq!(parse_pair::<i32>("007,-008", ','), Some((7, -8)));
    assert_eq!(parse_pair::<i32>("+,1", ','), None);
    assert_eq!(parse_pair::<i32>("1,-", ','), None);
    assert_eq!(parse_pair::<i32>("+-1,1", ','), None);
    assert_eq!(parse_pair::<usize>("+400x600", 'x'), Some((400, 600)));
    assert_eq!(parse_pair::<usize>("-1x600", 'x'), None);
    assert_eq!(parse_pair::<usize>("-0x600", 'x'), None);
}

#[test]
fn out_of_range_values_are_rejected() {
    assert_eq!(parse_pair::<i32>("2147483648,1", ','), None);
    assert_eq!(parse_pair::<i32>("1,-2147483649", ','), None);
    assert_eq!(
        parse_pair::<i32>("-2147483648,2147483647", ','),
        Some((i32::MIN, i32::MAX))
    );
}

#[test]
fn whitespace_and_garbage_are_rejected() {
    assert_eq!(parse_pair::<i32>(" 1,2", ','), None);
    assert_eq!(parse_pair::<i32>("1 ,2", ','), None);
    assert_eq!(parse_pair::<i32>("1, 2", ','), None);
    assert_eq!(parse_pair::<i32>("1,2\n", ','), None);
    assert_eq!(parse_pair::<i32>("1_000,2", ','), None);
    assert_eq!(parse_pair::<i32>("1,,2", ','), None);
}

#[test]
fn split_at_first_separator_only() {
    assert_eq!(split_pair("a,b,c", ','), Some(("a", "b,c")));
    assert_eq!(split_pair(",", ','), Some(("", "")));
    assert_eq!(split_pair("1.25,-0.0625", ','), Some(("1.25", "-0.0625")));
    assert_eq!(split_pair("x", 'x'), Some(("", "")));
}

#[test]
fn split_with_multibyte_text() {
    assert_eq!(split_pair("12→34", '→'), Some(("12", "34")));
    assert_eq!(split_pair("é,ü", ','), Some(("é", "ü")));
    assert_eq!(parse_pair::<i32>("12→34", '→'), Some((12, 34)));
    assert_eq!(parse_pair::<i32>("١٢,3", ','), None);
}

#[test]
fn reading_twice_gives_the_same_pair() {
    for text in &["20,10", "20,10xy", "", ",", "-3,4"] {
        assert_eq!(parse_pair::<i32>(text, ','), parse_pair::<i32>(text, ','));
        assert_eq!(split_pair(text, ','), split_pair(text, ','));
    }
}
