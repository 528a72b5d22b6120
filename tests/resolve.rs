use rfc_mirror::resolve::Rfc;

#[test]
fn url_pads_the_number() {
    let r = Rfc { num: 1, has_txt: true };
    assert_eq!(r.url(), "https://www.rfc-editor.org/rfc/rfc0001.txt");
}

#[test]
fn path_shards_by_first_two_digits() {
    assert_eq!(Rfc { num: 1, has_txt: true }.path(), "rfcs/00/rfc0001.txt");
    assert_eq!(Rfc { num: 791, has_txt: true }.path(), "rfcs/07/rfc0791.txt");
    assert_eq!(Rfc { num: 9110, has_txt: true }.path(), "rfcs/91/rfc9110.txt");
}

#[test]
fn five_digit_numbers_are_not_truncated() {
    let r = Rfc { num: 12345, has_txt: true };
    assert_eq!(r.path(), "rfcs/12/rfc12345.txt");
    assert_eq!(r.url(), "https://www.rfc-editor.org/rfc/rfc12345.txt");
}

#[test]
fn distinct_numbers_give_distinct_targets() {
    let nums = [0u32, 1, 9, 10, 99, 100, 999, 1000, 1001, 9999, 10000, 12345, u32::MAX];
    let mut paths = Vec::new();
    let mut urls = Vec::new();
    for n in nums {
        let r = Rfc { num: n, has_txt: true };
        let p = r.path();
        let padded = format!("{:04}", n);
        assert_eq!(&p[5..7], &padded[0..2]);
        paths.push(p);
        urls.push(r.url());
    }
    for i in 0..nums.len() {
        for j in 0..nums.len() {
            if i != j {
                assert_ne!(paths[i], paths[j]);
                assert_ne!(urls[i], urls[j]);
            }
        }
    }
}
