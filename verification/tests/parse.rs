use mandelbrot::{complex_of_pair, parse_complex, parse_pair, Complex};

#[test]
fn test_parse_pair() {
    assert_eq!(parse_pair::<i32>("", ','), None);
    assert_eq!(parse_pair::<i32>("10,", ','), None);
    assert_eq!(parse_pair::<i32>(",10", ','), None);
    assert_eq!(parse_pair::<i32>("10,20", ','), Some((10, 20)));
    assert_eq!(parse_pair::<i32>("20,20xy", ','), None);
    assert_eq!(parse_pair::<f64>("0.5x", 'x'), None);
    assert_eq!(parse_pair::<f64>("0.5x1.5", 'x'), Some((0.5, 1.5)));
}

#[test]
fn test_parse_complex() {
    assert_eq!(
        parse_complex("1.25,-0.0625"),
        Some(Complex {
            re: 1.25f64,
            im: -0.0625f64
        })
    );
    assert_eq!(parse_complex::<f64>(",-0.0625"), None);
}

#[test]
fn parse_pair_reads_image_dimensions() {
    assert_eq!(parse_pair::<usize>("1000x750", 'x'), Some((1000, 750)));
    assert_eq!(parse_pair::<usize>("1000x", 'x'), None);
    assert_eq!(parse_pair::<usize>("1000", 'x'), None);
}

#[test]
fn parse_complex_keeps_real_before_imaginary() {
    assert_eq!(
        parse_complex::<i32>("7,9"),
        Some(Complex { re: 7, im: 9 })
    );
    assert_eq!(complex_of_pair(Some((7, 9))), Some(Complex { re: 7, im: 9 }));
    assert_eq!(complex_of_pair::<i32>(None), None);
}

#[test]
fn parse_pair_splits_at_the_first_separator() {
    assert_eq!(parse_pair::<i32>("1,2,3", ','), None);
    assert_eq!(parse_pair::<i32>("7,8", ','), Some((7, 8)));
}
