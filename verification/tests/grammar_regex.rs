use mybash::grammar::find_declaration;
use mybash::variables::Variable;
use regex::Regex;

/// The grammar of a declaration as a regular expression.
const DECLARATION: &str =
    r#"(?im)(?P<name>[^:\s]+)\s*:\s*(?P<type>[^:\s]+)\s*=\s*('|")?(?P<value>[^'"\n]+)('|")?"#;

const ALPHABET: [char; 9] = ['a', 'I', ':', '=', ' ', '\n', '\'', '"', '\u{3000}'];

fn by_regex(re: &Regex, s: &str) -> Option<(usize, [String; 3])> {
    re.captures(s).map(|c| {
        (
            c.name("name").unwrap().start(),
            [c["name"].to_string(), c["type"].to_string(), c["value"].to_string()],
        )
    })
}

fn by_library(s: &str) -> Option<(usize, [String; 3])> {
    let v: Vec<char> = s.chars().collect();
    let piece = |span: (usize, usize)| v[span.0..span.1].iter().collect::<String>();
    find_declaration(&v).map(|d| {
        let start = v[..d.name.0].iter().map(|c| c.len_utf8()).sum();
        (start, [piece(d.name), piece(d.kind), piece(d.value)])
    })
}

fn agree_on(re: &Regex, s: &str) {
    assert_eq!(by_library(s), by_regex(re, s), "line {:?}", s);
    assert_eq!(Variable::is_var(s), re.is_match(s), "line {:?}", s);
}

/// Every text of `len` characters of the alphabet that begins with `first`.
fn agree_on_all(first: &[char], len: usize) {
    let re = Regex::new(DECLARATION).unwrap();
    let mut digits = vec![0usize; len];
    loop {
        let s: String = digits.iter().map(|d| ALPHABET[*d]).collect();
        if len == 0 || first.contains(&ALPHABET[digits[0]]) {
            agree_on(&re, &s);
        }
        let mut at = len;
        loop {
            if at == 0 {
                return;
            }
            at -= 1;
            digits[at] += 1;
            if digits[at] < ALPHABET.len() {
                break;
            }
            digits[at] = 0;
        }
    }
}

#[test]
fn declarations_are_found_as_the_regular_expression_finds_them_in_short_lines() {
    for len in 0..=5 {
        agree_on_all(&ALPHABET, len);
    }
}

#[test]
fn declarations_are_found_as_the_regular_expression_finds_them_after_a_letter() {
    agree_on_all(&['a', 'I'], 6);
}

#[test]
fn declarations_are_found_as_the_regular_expression_finds_them_after_a_sign() {
    agree_on_all(&[':', '=', '\'', '"'], 6);
}

#[test]
fn declarations_are_found_as_the_regular_expression_finds_them_after_a_space() {
    agree_on_all(&[' ', '\n', '\u{3000}'], 6);
}

#[test]
fn declarations_are_found_as_the_regular_expression_finds_them_in_written_lines() {
    let re = Regex::new(DECLARATION).unwrap();
    let lines = [
        "name: String = 'Jone'",
        "age: Int = 31",
        "age:Int=31",
        "age : Int = 31 ",
        "email: Str = 'something@whatmatter.com'",
        "x: Str = \"it's\"",
        "x: Str = ''",
        "x: Str = ' '",
        "x: Str =",
        "x: Str = \n",
        "x: Str =\t\n \n''",
        "a:b:c=d=e='f'g",
        "if x == 5 then y: Int = 3",
        "echo a: b = c",
        "\u{e9}t\u{e9} : Str = \u{1f600}",
        "x\u{a0}:\u{2003}Int\u{3000}=\u{85}7",
        "a:b= '\n",
        "a:b=c\n:d=e",
        "a\n:\nInt\n=\n5",
        "::a:b==c",
        "a: = b:c=d",
    ];
    for line in lines {
        agree_on(&re, line);
    }
}

#[test]
fn declarations_are_found_as_the_regular_expression_finds_them_in_random_lines() {
    let re = Regex::new(DECLARATION).unwrap();
    let mut seed: u64 = 0x2545_f491_4f6c_dd1d;
    for _ in 0..20000 {
        let mut s = String::new();
        seed = seed.wrapping_mul(6364136223846793005).wrapping_add(1442695040888963407);
        let len = 7 + (seed >> 33) as usize % 14;
        for _ in 0..len {
            seed = seed.wrapping_mul(6364136223846793005).wrapping_add(1442695040888963407);
            s.push(ALPHABET[(seed >> 33) as usize % ALPHABET.len()]);
        }
        agree_on(&re, &s);
    }
}
