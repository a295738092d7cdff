use sudoku_grid::difficulty::Difficulty;
use sudoku_grid::extract::PuzzleExtractor;
use sudoku_grid::puzzle::Puzzle;

const CHEAT: &str = "984273651715684923326951748849732165637815294251469387193546872572398416468127539";
const EDITMASK: &str = "111101011100011011011011011100110100010000010001011001110110110110110001110101111";

fn expected_solution() -> Vec<u8> {
    vec![
        9, 8, 4, 2, 7, 3, 6, 5, 1, 7, 1, 5, 6, 8, 4, 9, 2, 3, 3, 2, 6, 9, 5, 1, 7, 4, 8, 8, 4, 9,
        7, 3, 2, 1, 6, 5, 6, 3, 7, 8, 1, 5, 2, 9, 4, 2, 5, 1, 4, 6, 9, 3, 8, 7, 1, 9, 3, 5, 4, 6,
        8, 7, 2, 5, 7, 2, 3, 9, 8, 4, 1, 6, 4, 6, 8, 1, 2, 7, 5, 3, 9,
    ]
}

fn expected_mask() -> Vec<bool> {
    vec![
        true, true, true, true, false, true, false, true, true, true, false, false, false, true,
        true, false, true, true, false, true, true, false, true, true, false, true, true, true,
        false, false, true, true, false, true, false, false, false, true, false, false, false,
        false, false, true, false, false, false, true, false, true, true, false, false, true,
        true, true, false, true, true, false, true, true, false, true, true, false, true, true,
        false, false, false, true, true, true, false, true, false, true, true, true, true,
    ]
}

/// A document in the shape the puzzle service returns: the three required
/// fields sit in input tags among other markup, other attributes, and tags
/// whose attributes are split across lines.
fn sample_html(pid: &str, cheat: &str, editmask: &str) -> String {
    format!(
        "<html><head><title>Web Sudoku</title></head>\n<body>\n<form method=\"POST\" action=\".\">\n<INPUT TYPE=\"hidden\" NAME=\"prefix\" ID=\"prefix\" VALUE=\"4076\">\n<input type=\"hidden\" id=\"pid\"\n    value=\"{}\">\n<input id=\"cheat\" type=\"hidden\" value=\"{}\">\n<input type=\"hidden\"\n    id=\"editmask\" value=\"{}\">\n</form></body></html>\n",
        pid, cheat, editmask
    )
}

#[test]
fn input_regex_works() {
    let content = sample_html("7042100266", CHEAT, EDITMASK);
    let extractor = PuzzleExtractor::new();

    let actual = extractor.extract(Difficulty::Evil, &content).unwrap();
    let expected = Puzzle {
        difficulty: Difficulty::Evil,
        id: "7042100266".as_bytes().to_vec(),
        solution: expected_solution(),
        mask: expected_mask(),
    };

    assert_eq!(actual, expected);
}

#[test]
fn extraction_decodes_positionally() {
    let cheat = "123456789".repeat(9);
    let editmask = "101010101".repeat(9);
    let content = sample_html("42", &cheat, &editmask);
    let puzzle = PuzzleExtractor::new().extract(Difficulty::Easy, &content).unwrap();
    assert_eq!(puzzle.solution.len(), 81);
    assert_eq!(puzzle.mask.len(), 81);
    let cheat_bytes = cheat.as_bytes();
    let editmask_bytes = editmask.as_bytes();
    for i in 0..81 {
        assert_eq!(puzzle.solution[i], cheat_bytes[i] - b'0');
        assert_eq!(puzzle.mask[i], editmask_bytes[i] == b'1');
    }
}

#[test]
fn missing_cheat_yields_none() {
    let content = format!(
        "<html><body>\n<input type=\"hidden\" id=\"pid\" value=\"7042100266\">\n<input type=\"hidden\" id=\"editmask\" value=\"{}\">\n</body></html>\n",
        EDITMASK
    );
    assert!(PuzzleExtractor::new().extract(Difficulty::Evil, &content).is_none());
}

#[test]
fn missing_pid_yields_none() {
    let content = format!(
        "<html><body>\n<input type=\"hidden\" id=\"cheat\" value=\"{}\">\n<input type=\"hidden\" id=\"editmask\" value=\"{}\">\n</body></html>\n",
        CHEAT, EDITMASK
    );
    assert!(PuzzleExtractor::new().extract(Difficulty::Evil, &content).is_none());
}

#[test]
fn empty_document_yields_none() {
    assert!(PuzzleExtractor::new().extract(Difficulty::Evil, "").is_none());
}

#[test]
fn later_occurrence_overwrites_earlier() {
    let content = format!(
        "<html><body>\n<input id=\"pid\" value=\"1111\">\n<input id=\"pid\" value=\"2222\">\n<input id=\"cheat\" value=\"{}\">\n<input id=\"editmask\" value=\"{}\">\n</body></html>\n",
        CHEAT, EDITMASK
    );
    let puzzle = PuzzleExtractor::new().extract(Difficulty::Evil, &content).unwrap();
    assert_eq!(puzzle.id, b"2222".to_vec());
}

#[test]
fn matching_is_case_insensitive() {
    let content = format!(
        "<HTML><BODY>\n<INPUT ID=\"pid\" VALUE=\"77\">\n<INPUT ID=\"cheat\" VALUE=\"{}\">\n<INPUT ID=\"editmask\" VALUE=\"{}\">\n</BODY></HTML>\n",
        CHEAT, EDITMASK
    );
    let puzzle = PuzzleExtractor::new().extract(Difficulty::Evil, &content).unwrap();
    assert_eq!(puzzle.id, b"77".to_vec());
}

#[test]
fn non_digit_value_yields_no_pair() {
    // The edit mask tag's value is not a digit run, so the pattern yields no
    // pair for it and extraction fails as a whole.
    let content = format!(
        "<html><body>\n<input id=\"pid\" value=\"7042100266\">\n<input id=\"cheat\" value=\"{}\">\n<input id=\"editmask\" value=\"abcdef\">\n</body></html>\n",
        CHEAT
    );
    assert!(PuzzleExtractor::new().extract(Difficulty::Evil, &content).is_none());
}

#[test]
fn extraction_keeps_requested_difficulty() {
    let content = sample_html("7042100266", CHEAT, EDITMASK);
    let puzzle = PuzzleExtractor::new().extract(Difficulty::Medium, &content).unwrap();
    assert_eq!(puzzle.difficulty, Difficulty::Medium);
}

#[test]
fn mask_treats_only_one_as_editable() {
    // Any edit mask byte other than '1', not only '0', marks its cell given.
    let cheat = "123456789".repeat(9);
    let mut editmask = String::from("102938471");
    editmask.push_str(&"000000000".repeat(8));
    let content = sample_html("5", &cheat, &editmask);
    let puzzle = PuzzleExtractor::new().extract(Difficulty::Evil, &content).unwrap();
    let expected_first_row = vec![true, false, false, false, false, false, false, false, true];
    assert_eq!(&puzzle.mask[0..9], &expected_first_row[..]);
    assert!(puzzle.mask[9..].iter().all(|&m| !m));
}
