use dsppipeline::complex::Complex16;
use dsppipeline::debug_logging::{complex_line, push_decimal};

fn reference_line(re: i16, im: i16) -> String {
    if im > 0 {
        format!("{}+{}i\n", re, im)
    } else if im < 0 {
        format!("{}{}i\n", re, im)
    } else {
        format!("{}+{}i\n", re, im)
    }
}

#[test]
fn complex_line_examples() {
    assert_eq!(complex_line(Complex16 { re: 3, im: 4 }), b"3+4i\n".to_vec());
    assert_eq!(complex_line(Complex16 { re: -7, im: -12 }), b"-7-12i\n".to_vec());
    assert_eq!(complex_line(Complex16 { re: 5, im: 0 }), b"5+0i\n".to_vec());
    assert_eq!(complex_line(Complex16 { re: 0, im: 0 }), b"0+0i\n".to_vec());
}

#[test]
fn complex_line_extremes() {
    assert_eq!(
        complex_line(Complex16 { re: i16::MIN, im: i16::MAX }),
        b"-32768+32767i\n".to_vec()
    );
    assert_eq!(
        complex_line(Complex16 { re: i16::MAX, im: i16::MIN }),
        b"32767-32768i\n".to_vec()
    );
}

#[test]
fn complex_line_agrees_with_formatted_text() {
    let values: Vec<i16> = vec![
        i16::MIN, -32767, -10000, -999, -100, -10, -9, -1, 0, 1, 9, 10, 99, 100, 12345, i16::MAX,
    ];
    for &re in &values {
        for &im in &values {
            let line = complex_line(Complex16 { re, im });
            assert_eq!(String::from_utf8(line).unwrap(), reference_line(re, im));
        }
    }
}

#[test]
fn push_decimal_appends() {
    let mut out = b"x=".to_vec();
    push_decimal(&mut out, -305);
    assert_eq!(out, b"x=-305".to_vec());
}
