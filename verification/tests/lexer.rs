use kernel_lex::Lexer;
use kernel_lex::Token;

fn drain(src: &str) -> Vec<(Token, usize, usize)> {
    let mut lx = Lexer::new(src);
    let mut out = Vec::new();
    while let Some(t) = lx.next() {
        out.push(t);
    }
    out
}

#[test]
fn lexer() {
    let src = "
        #[kernel]
        fn vec_add<F: Float>(a: &[F], b: &[F], c: &mut [F]) {
            let index = thread.x;

            if index < a.len() {
                c[index] = a[index] + b[index];
            }
        }
    ";

    let expected = "
        #_[_kernel_]_
        fn_vec_add_<_F_:_Float_>_(_a_:_&_[_F_]_,_b_:_&_[_F_]_,_c_:_&_mut_[_F_]_)_{_
            let_index_=_thread_._x_;_

            if_index_<_a_._len_(_)_{
                _c_[_index_]_=_a_[_index_]_+_b_[_index_]_;_
            }_
        }_
    "
        .replace('\t', "")
        .replace('\n', "")
        .replace(' ', "");

    let mut output = String::new();

    let mut lx = Lexer::new(src);
    while let Some((token, _, _)) = lx.next() {
        match token {
            Token::Ident(ident) => {
                output.push_str(&ident);
                output.push('_');
            },
            Token::NumLit(lit) => {
                output.push_str(&lit);
                output.push('_');
            },
            Token::Symbol(symbol) => {
                output.push(symbol);
                output.push('_');
            },
        }
    }

    assert_eq!(expected, output);
}

#[test]
// test if line tracking is working correctly.
fn lexer_line_tracking() {
    let src = "
        #[kernel]
        fn vec_add<F: Float>(a: &[F], b: &[F], c: &mut [F]) {
            let index = thread.x;

            if index < a.len() {
                c[index] = a[index] + b[index];
            }
        }
    ";

    // total number of tokens on each line.
    let expected = vec![4, 31, 7, 9, 15, 1, 1];

    let mut line_sums: Vec<i32> = Vec::new();
    let mut curr_line = 0;

    let mut lx = Lexer::new(src);
    while let Some((_, line, _)) = lx.next() {
        if line != curr_line {
            line_sums.push(0);
            curr_line = line;
        }

        *line_sums.last_mut().unwrap() += 1;
    }

    assert_eq!(expected, line_sums);
}

#[test]
fn lexer_comment_ignoring() {
    let src = "
        #[kernel /* my super epic comment */ ]
        fn vec_add<F: /* my other super epic comment */ Float>(a: &[F], b: &[F], c: &mut [F]) {
            let index = thread.x;
            /*
                a super epic multi-line comment!
                nobody can stop me now!
            */
            // more single line comments
            if index < a.len() { // single-line comment
                c[index] = a[index] + /* hi */ b[index];
            } // single line comments.
        }
    ";

    let expected = "
        #_[_kernel_]_
        fn_vec_add_<_F_:_Float_>_(_a_:_&_[_F_]_,_b_:_&_[_F_]_,_c_:_&_mut_[_F_]_)_{_
            let_index_=_thread_._x_;_

            if_index_<_a_._len_(_)_{
                _c_[_index_]_=_a_[_index_]_+_b_[_index_]_;_
            }_
        }_
    "
        .replace('\t', "")
        .replace('\n', "")
        .replace(' ', "");

    let mut output = String::new();

    let mut lx = Lexer::new(src);
    while let Some((token, _, _)) = lx.next() {
        match token {
            Token::Ident(ident) => {
                output.push_str(&ident);
                output.push('_');
            },
            Token::NumLit(lit) => {
                output.push_str(&lit);
                output.push('_');
            },
            Token::Symbol(symbol) => {
                output.push(symbol);
                output.push('_');
            },
        }
    }

    assert_eq!(expected, output);
}

#[test]
fn kernel_attribute_round_trip() {
    let toks = drain("#[kernel]\nfn f(a:&[F]){}");
    let spelled: Vec<String> = toks.iter().map(|(t, _, _)| t.to_string()).collect();
    assert_eq!(
        spelled,
        vec!["#", "[", "kernel", "]", "fn", "f", "(", "a", ":", "&", "[", "F", "]", ")", "{", "}"]
    );
    // `# [ kernel ]` stand before the newline, everything after it on line 2.
    for k in 0..4 {
        assert_eq!(toks[k].1, 1);
    }
    for k in 4..toks.len() {
        assert_eq!(toks[k].1, 2);
    }
}

#[test]
fn line_comment_produces_no_token() {
    let toks = drain("a//x\nb");
    assert_eq!(toks.len(), 2);
    assert!(matches!(&toks[0].0, Token::Ident(s) if s == "a"));
    assert_eq!((toks[0].1, toks[0].2), (1, 0));
    assert!(matches!(&toks[1].0, Token::Ident(s) if s == "b"));
    assert_eq!((toks[1].1, toks[1].2), (2, 0));
}

#[test]
fn unterminated_block_comment_ends_silently() {
    let mut lx = Lexer::new("a/* never closes");
    let first = lx.next();
    assert!(matches!(&first, Some((Token::Ident(s), 1, 0)) if s == "a"));
    assert!(lx.next().is_none());
    assert!(lx.next().is_none());
}

#[test]
fn numeric_literal_is_permissive() {
    let toks = drain("0xFF3D_i32 ");
    assert_eq!(toks.len(), 1);
    assert!(matches!(&toks[0].0, Token::NumLit(s) if s == "0xFF3D_i32"));
}

#[test]
fn numeric_literal_with_separator() {
    let toks = drain("1_000u64");
    assert_eq!(toks.len(), 1);
    assert!(matches!(&toks[0].0, Token::NumLit(s) if s == "1_000u64"));
}

#[test]
fn concatenation_reproduces_stripped_source() {
    let src = "let x = 1_0; // tail\n/* gap */ y\t= x+2;";
    let stripped: String = "letx=1_0;y=x+2;".to_string();
    let mut spelled = String::new();
    for (t, _, _) in drain(src) {
        spelled.push_str(&t.to_string());
    }
    assert_eq!(spelled, stripped);
}

#[test]
fn ordinal_resets_at_every_line_increment() {
    // line changes from a bare newline, a line comment's newline, and a
    // newline inside a block comment all reset the ordinal to 0.
    let src = "a b\nc d //x\ne /*\n*/ f g";
    let toks = drain(src);
    let positions: Vec<(usize, usize)> = toks.iter().map(|(_, l, o)| (*l, *o)).collect();
    assert_eq!(positions, vec![(1, 0), (1, 1), (2, 0), (2, 1), (3, 0), (4, 0), (4, 1)]);
    for k in 0..positions.len() - 1 {
        let (l0, o0) = positions[k];
        let (l1, o1) = positions[k + 1];
        assert!(l0 <= l1);
        if l0 == l1 {
            assert_eq!(o1, o0 + 1);
        } else {
            assert_eq!(o1, 0);
        }
    }
}

#[test]
fn line_numbers_count_newlines_everywhere() {
    // 4 newlines in all, one inside a block comment, one ending a line
    // comment: the last token stands on line 1 + 4.
    let src = "a\nb // c\nd /* e\nf */ g\nh";
    let toks = drain(src);
    assert_eq!(toks.last().unwrap().1, 5);
}

#[test]
fn empty_source_yields_nothing() {
    let mut lx = Lexer::new("");
    assert!(lx.next().is_none());
}

#[test]
fn lone_slash_is_a_symbol() {
    let toks = drain("a / b");
    assert_eq!(toks.len(), 3);
    assert!(matches!(toks[1].0, Token::Symbol('/')));
    assert_eq!(toks[1].2, 1);
}

#[test]
fn trailing_identifier_is_flushed() {
    let toks = drain("return value");
    assert_eq!(toks.len(), 2);
    assert!(matches!(&toks[1].0, Token::Ident(s) if s == "value"));
}

#[test]
fn adjacent_symbols_stay_single_characters() {
    let spelled: Vec<String> = drain("x<=y").iter().map(|(t, _, _)| t.to_string()).collect();
    assert_eq!(spelled, vec!["x", "<", "=", "y"]);
}

#[test]
fn empty_block_comment_is_skipped() {
    let toks = drain("a/**/b");
    let spelled: Vec<String> = toks.iter().map(|(t, _, _)| t.to_string()).collect();
    assert_eq!(spelled, vec!["a", "b"]);
    assert_eq!((toks[1].1, toks[1].2), (1, 1));
}

#[test]
fn newline_splits_identifiers() {
    // a span never crosses a line break: `ab` and `cd` stay two tokens.
    let toks = drain("ab\ncd");
    assert_eq!(toks.len(), 2);
    assert!(matches!(&toks[0].0, Token::Ident(s) if s == "ab"));
    assert!(matches!(&toks[1].0, Token::Ident(s) if s == "cd"));
    assert_eq!((toks[0].1, toks[1].1), (1, 2));
}

#[test]
fn symbol_to_string_spells_its_character() {
    let t = Token::Symbol('+');
    assert_eq!(t.to_string(), "+");
    let i = Token::Ident("thread".to_string());
    assert_eq!(i.to_string(), "thread");
    let n = Token::NumLit("42".to_string());
    assert_eq!(n.to_string(), "42");
}
