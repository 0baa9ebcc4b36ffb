use revng_build::text::{chars_of, lines_exec, parse_u32_exec, sort_strings, split_exec, trim_exec};

fn text(v: &[char]) -> String {
    v.iter().collect()
}

#[test]
fn numbers_parse_like_std() {
    for input in ["0", "42", "+7", "4294967295", "4294967296", "", "+", "-1", " 1", "1a"] {
        assert_eq!(parse_u32_exec(&chars_of(input)), input.parse::<u32>().ok(), "{input:?}");
    }
}

#[test]
fn lines_split_like_std() {
    for input in ["", "a", "a\n", "a\nb", "a\r\nb\r", "\n\n", "x\r\n"] {
        let ours = lines_exec(&chars_of(input)).iter().map(|l| text(l)).collect::<Vec<_>>();
        let std = input.lines().map(str::to_owned).collect::<Vec<_>>();
        assert_eq!(ours, std, "{input:?}");
    }
}

#[test]
fn trimming_and_splitting_match_std() {
    for input in ["", "  a b \t", "\u{3000}x\u{85}", "::a:"] {
        assert_eq!(text(&trim_exec(&chars_of(input))), input.trim());
        let ours = split_exec(&chars_of(input), ':').iter().map(|l| text(l)).collect::<Vec<_>>();
        let std = input.split(':').map(str::to_owned).collect::<Vec<_>>();
        assert_eq!(ours, std);
    }
}

#[test]
fn strings_sort_by_bytes() {
    let input = vec!["librevngB.so".to_string(), "librevngA.so".to_string(), "libé".to_string(), "lib".to_string()];
    let mut expected = input.clone();
    expected.sort();
    assert_eq!(sort_strings(&input), expected);
}
