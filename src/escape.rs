//! Percent-escapes for the characters that cannot stand as they are in a
//! link's path, and their decoding.
use vstd::prelude::*;

verus! {

/// The escape written for `c`, or `None` when `c` stands as it is.
pub open spec fn escape_spec(c: char) -> Option<Seq<char>> {
    match c {
        '\u{0}' => Some(seq!['%', '0', '0']),
        '\u{1}' => Some(seq!['%', '0', '1']),
        '\u{2}' => Some(seq!['%', '0', '2']),
        '\u{3}' => Some(seq!['%', '0', '3']),
        '\u{4}' => Some(seq!['%', '0', '4']),
        '\u{5}' => Some(seq!['%', '0', '5']),
        '\u{6}' => Some(seq!['%', '0', '6']),
        '\u{7}' => Some(seq!['%', '0', '7']),
        '\u{8}' => Some(seq!['%', '0', '8']),
        '\u{9}' => Some(seq!['%', '0', '9']),
        '\u{a}' => Some(seq!['%', '0', 'A']),
        '\u{b}' => Some(seq!['%', '0', 'B']),
        '\u{c}' => Some(seq!['%', '0', 'C']),
        '\u{d}' => Some(seq!['%', '0', 'D']),
        '\u{e}' => Some(seq!['%', '0', 'E']),
        '\u{f}' => Some(seq!['%', '0', 'F']),
        '\u{10}' => Some(seq!['%', '1', '0']),
        '\u{11}' => Some(seq!['%', '1', '1']),
        '\u{12}' => Some(seq!['%', '1', '2']),
        '\u{13}' => Some(seq!['%', '1', '3']),
        '\u{14}' => Some(seq!['%', '1', '4']),
        '\u{15}' => Some(seq!['%', '1', '5']),
        '\u{16}' => Some(seq!['%', '1', '6']),
        '\u{17}' => Some(seq!['%', '1', '7']),
        '\u{18}' => Some(seq!['%', '1', '8']),
        '\u{19}' => Some(seq!['%', '1', '9']),
        '\u{1a}' => Some(seq!['%', '1', 'A']),
        '\u{1b}' => Some(seq!['%', '1', 'B']),
        '\u{1c}' => Some(seq!['%', '1', 'C']),
        '\u{1d}' => Some(seq!['%', '1', 'D']),
        '\u{1e}' => Some(seq!['%', '1', 'E']),
        '\u{1f}' => Some(seq!['%', '1', 'F']),
        ' ' => Some(seq!['%', '2', '0']),
        '"' => Some(seq!['%', '2', '2']),
        '#' => Some(seq!['%', '2', '3']),
        '%' => Some(seq!['%', '2', '5']),
        '&' => Some(seq!['%', '2', '6']),
        '\'' => Some(seq!['%', '2', '7']),
        '<' => Some(seq!['%', '3', 'C']),
        '>' => Some(seq!['%', '3', 'E']),
        '?' => Some(seq!['%', '3', 'F']),
        '\\' => Some(seq!['%', '5', 'C']),
        '^' => Some(seq!['%', '5', 'E']),
        '`' => Some(seq!['%', '6', '0']),
        '{' => Some(seq!['%', '7', 'B']),
        '|' => Some(seq!['%', '7', 'C']),
        '}' => Some(seq!['%', '7', 'D']),
        '\u{7f}' => Some(seq!['%', '7', 'F']),
        _ => None,
    }
}

/// The character of the escape `%ab`, for the escapes that `escape_spec` writes.
pub open spec fn unescape_spec(a: char, b: char) -> Option<char> {
    match (a, b) {
        ('0', '0') => Some('\u{0}'),
        ('0', '1') => Some('\u{1}'),
        ('0', '2') => Some('\u{2}'),
        ('0', '3') => Some('\u{3}'),
        ('0', '4') => Some('\u{4}'),
        ('0', '5') => Some('\u{5}'),
        ('0', '6') => Some('\u{6}'),
        ('0', '7') => Some('\u{7}'),
        ('0', '8') => Some('\u{8}'),
        ('0', '9') => Some('\u{9}'),
        ('0', 'A') => Some('\u{a}'),
        ('0', 'B') => Some('\u{b}'),
        ('0', 'C') => Some('\u{c}'),
        ('0', 'D') => Some('\u{d}'),
        ('0', 'E') => Some('\u{e}'),
        ('0', 'F') => Some('\u{f}'),
        ('1', '0') => Some('\u{10}'),
        ('1', '1') => Some('\u{11}'),
        ('1', '2') => Some('\u{12}'),
        ('1', '3') => Some('\u{13}'),
        ('1', '4') => Some('\u{14}'),
        ('1', '5') => Some('\u{15}'),
        ('1', '6') => Some('\u{16}'),
        ('1', '7') => Some('\u{17}'),
        ('1', '8') => Some('\u{18}'),
        ('1', '9') => Some('\u{19}'),
        ('1', 'A') => Some('\u{1a}'),
        ('1', 'B') => Some('\u{1b}'),
        ('1', 'C') => Some('\u{1c}'),
        ('1', 'D') => Some('\u{1d}'),
        ('1', 'E') => Some('\u{1e}'),
        ('1', 'F') => Some('\u{1f}'),
        ('2', '0') => Some(' '),
        ('2', '2') => Some('"'),
        ('2', '3') => Some('#'),
        ('2', '5') => Some('%'),
        ('2', '6') => Some('&'),
        ('2', '7') => Some('\''),
        ('3', 'C') => Some('<'),
        ('3', 'E') => Some('>'),
        ('3', 'F') => Some('?'),
        ('5', 'C') => Some('\\'),
        ('5', 'E') => Some('^'),
        ('6', '0') => Some('`'),
        ('7', 'B') => Some('{'),
        ('7', 'C') => Some('|'),
        ('7', 'D') => Some('}'),
        ('7', 'F') => Some('\u{7f}'),
        _ => None,
    }
}

pub open spec fn encode_char_spec(c: char) -> Seq<char> {
    match escape_spec(c) {
        Some(e) => e,
        None => seq![c],
    }
}

/// `s` with each character that needs it replaced by its escape.
pub open spec fn encode_spec(s: Seq<char>) -> Seq<char>
    decreases s.len(),
{
    if s.len() == 0 {
        Seq::<char>::empty()
    } else {
        encode_spec(s.drop_last()) + encode_char_spec(s.last())
    }
}

/// Percent-decoding of the escapes above: each `%ab` that names one of them
/// becomes its character; every other character stays.
pub open spec fn decode_spec(s: Seq<char>) -> Seq<char>
    decreases s.len(),
{
    if s.len() == 0 {
        Seq::<char>::empty()
    } else if s.len() >= 3 && s[0] == '%' && unescape_spec(s[1], s[2]) is Some {
        seq![unescape_spec(s[1], s[2])->Some_0] + decode_spec(s.subrange(3, s.len() as int))
    } else {
        seq![s[0]] + decode_spec(s.drop_first())
    }
}

fn escape(c: char) -> (r: Option<&'static str>)
    ensures
        r is None <==> escape_spec(c) is None,
        r is Some ==> r->Some_0@ == escape_spec(c)->Some_0,
{
    match c {
        '\u{0}' => {
            proof {
                reveal_strlit("%00");
            }
            Some("%00")
        },
        '\u{1}' => {
            proof {
                reveal_strlit("%01");
            }
            Some("%01")
        },
        '\u{2}' => {
            proof {
                reveal_strlit("%02");
            }
            Some("%02")
        },
        '\u{3}' => {
            proof {
                reveal_strlit("%03");
            }
            Some("%03")
        },
        '\u{4}' => {
            proof {
                reveal_strlit("%04");
            }
            Some("%04")
        },
        '\u{5}' => {
            proof {
                reveal_strlit("%05");
            }
            Some("%05")
        },
        '\u{6}' => {
            proof {
                reveal_strlit("%06");
            }
            Some("%06")
        },
        '\u{7}' => {
            proof {
                reveal_strlit("%07");
            }
            Some("%07")
        },
        '\u{8}' => {
            proof {
                reveal_strlit("%08");
            }
            Some("%08")
        },
        '\u{9}' => {
            proof {
                reveal_strlit("%09");
            }
            Some("%09")
        },
        '\u{a}' => {
            proof {
                reveal_strlit("%0A");
            }
            Some("%0A")
        },
        '\u{b}' => {
            proof {
                reveal_strlit("%0B");
            }
            Some("%0B")
        },
        '\u{c}' => {
            proof {
                reveal_strlit("%0C");
            }
            Some("%0C")
        },
        '\u{d}' => {
            proof {
                reveal_strlit("%0D");
            }
            Some("%0D")
        },
        '\u{e}' => {
            proof {
                reveal_strlit("%0E");
            }
            Some("%0E")
        },
        '\u{f}' => {
            proof {
                reveal_strlit("%0F");
            }
            Some("%0F")
        },
        '\u{10}' => {
            proof {
                reveal_strlit("%10");
            }
            Some("%10")
        },
        '\u{11}' => {
            proof {
                reveal_strlit("%11");
            }
            Some("%11")
        },
        '\u{12}' => {
            proof {
                reveal_strlit("%12");
            }
            Some("%12")
        },
        '\u{13}' => {
            proof {
                reveal_strlit("%13");
            }
            Some("%13")
        },
        '\u{14}' => {
            proof {
                reveal_strlit("%14");
            }
            Some("%14")
        },
        '\u{15}' => {
            proof {
                reveal_strlit("%15");
            }
            Some("%15")
        },
        '\u{16}' => {
            proof {
                reveal_strlit("%16");
            }
            Some("%16")
        },
        '\u{17}' => {
            proof {
                reveal_strlit("%17");
            }
            Some("%17")
        },
        '\u{18}' => {
            proof {
                reveal_strlit("%18");
            }
            Some("%18")
        },
        '\u{19}' => {
            proof {
                reveal_strlit("%19");
            }
            Some("%19")
        },
        '\u{1a}' => {
            proof {
                reveal_strlit("%1A");
            }
            Some("%1A")
        },
        '\u{1b}' => {
            proof {
                reveal_strlit("%1B");
            }
            Some("%1B")
        },
        '\u{1c}' => {
            proof {
                reveal_strlit("%1C");
            }
            Some("%1C")
        },
        '\u{1d}' => {
            proof {
                reveal_strlit("%1D");
            }
            Some("%1D")
        },
        '\u{1e}' => {
            proof {
                reveal_strlit("%1E");
            }
            Some("%1E")
        },
        '\u{1f}' => {
            proof {
                reveal_strlit("%1F");
            }
            Some("%1F")
        },
        ' ' => {
            proof {
                reveal_strlit("%20");
            }
            Some("%20")
        },
        '"' => {
            proof {
                reveal_strlit("%22");
            }
            Some("%22")
        },
        '#' => {
            proof {
                reveal_strlit("%23");
            }
            Some("%23")
        },
        '%' => {
            proof {
                reveal_strlit("%25");
            }
            Some("%25")
        },
        '&' => {
            proof {
                reveal_strlit("%26");
            }
            Some("%26")
        },
        '\'' => {
            proof {
                reveal_strlit("%27");
            }
            Some("%27")
        },
        '<' => {
            proof {
                reveal_strlit("%3C");
            }
            Some("%3C")
        },
        '>' => {
            proof {
                reveal_strlit("%3E");
            }
            Some("%3E")
        },
        '?' => {
            proof {
                reveal_strlit("%3F");
            }
            Some("%3F")
        },
        '\\' => {
            proof {
                reveal_strlit("%5C");
            }
            Some("%5C")
        },
        '^' => {
            proof {
                reveal_strlit("%5E");
            }
            Some("%5E")
        },
        '`' => {
            proof {
                reveal_strlit("%60");
            }
            Some("%60")
        },
        '{' => {
            proof {
                reveal_strlit("%7B");
            }
            Some("%7B")
        },
        '|' => {
            proof {
                reveal_strlit("%7C");
            }
            Some("%7C")
        },
        '}' => {
            proof {
                reveal_strlit("%7D");
            }
            Some("%7D")
        },
        '\u{7f}' => {
            proof {
                reveal_strlit("%7F");
            }
            Some("%7F")
        },
        _ => None,
    }
}

/// `s` with each character that cannot stand in a link's path escaped.
pub fn encode_segment(s: &str) -> (r: String)
    ensures
        r@ == encode_spec(s@),
{
    let n = s.unicode_len();
    let mut out = String::new();
    let mut i: usize = 0;
    assert(s@.subrange(0, 0) == Seq::<char>::empty());
    while i < n
        invariant
            n == s@.len(),
            i <= n,
            out@ == encode_spec(s@.subrange(0, i as int)),
        decreases n - i,
    {
        let c = s.get_char(i);
        assert(s@.subrange(0, i + 1).drop_last() == s@.subrange(0, i as int));
        match escape(c) {
            Some(e) => out.append(e),
            None => {
                let one = s.substring_char(i, i + 1);
                assert(one@ == seq![c]);
                out.append(one);
            },
        }
        i = i + 1;
    }
    assert(s@.subrange(0, n as int) == s@);
    out
}

proof fn lemma_encode_concat(a: Seq<char>, b: Seq<char>)
    ensures
        encode_spec(a + b) == encode_spec(a) + encode_spec(b),
    decreases b.len(),
{
    if b.len() == 0 {
        assert(a + b == a);
        assert(encode_spec(a) + Seq::<char>::empty() == encode_spec(a));
    } else {
        lemma_encode_concat(a, b.drop_last());
        assert((a + b).drop_last() == a + b.drop_last());
        assert((a + b).last() == b.last());
    }
}

proof fn lemma_decode_char(c: char, rest: Seq<char>)
    ensures
        decode_spec(encode_char_spec(c) + rest) == seq![c] + decode_spec(rest),
{
    let x = encode_char_spec(c) + rest;
    if escape_spec(c) is Some {
        assert(x.subrange(3, x.len() as int) == rest);
    } else {
        assert(x.drop_first() == rest);
    }
}

/// Decoding undoes encoding, whatever follows.
pub proof fn lemma_decode_encode(s: Seq<char>, rest: Seq<char>)
    ensures
        decode_spec(encode_spec(s) + rest) == s + decode_spec(rest),
    decreases s.len(),
{
    if s.len() > 0 {
        let t = s.drop_first();
        lemma_encode_concat(seq![s[0]], t);
        assert(seq![s[0]] + t == s);
        assert(seq![s[0]].drop_last() == Seq::<char>::empty());
        assert(seq![s[0]].last() == s[0]);
        assert(encode_spec(Seq::<char>::empty()) == Seq::<char>::empty());
        assert(Seq::<char>::empty() + encode_char_spec(s[0]) == encode_char_spec(s[0]));
        assert(encode_spec(seq![s[0]]) == encode_char_spec(s[0]));
        lemma_decode_encode(t, rest);
        lemma_decode_char(s[0], encode_spec(t) + rest);
        assert(encode_spec(s) + rest == encode_char_spec(s[0]) + (encode_spec(t) + rest));
        assert(seq![s[0]] + (t + decode_spec(rest)) == s + decode_spec(rest));
    } else {
        assert(encode_spec(s) + rest == rest);
        assert(s + decode_spec(rest) == decode_spec(rest));
    }
}

/// The HTML form of one character of text.
pub open spec fn html_char_spec(c: char) -> Seq<char> {
    match c {
        '&' => "&amp;"@,
        '<' => "&lt;"@,
        '>' => "&gt;"@,
        '"' => "&quot;"@,
        '\'' => "&#39;"@,
        _ => seq![c],
    }
}

/// `s` as HTML text: markup characters replaced by their entities.
pub open spec fn html_spec(s: Seq<char>) -> Seq<char>
    decreases s.len(),
{
    if s.len() == 0 {
        Seq::<char>::empty()
    } else {
        html_spec(s.drop_last()) + html_char_spec(s.last())
    }
}

/// `s` as HTML text: markup characters replaced by their entities.
pub fn escape_html(s: &str) -> (r: String)
    ensures
        r@ == html_spec(s@),
{
    let n = s.unicode_len();
    let mut out = String::new();
    let mut i: usize = 0;
    assert(s@.subrange(0, 0) == Seq::<char>::empty());
    while i < n
        invariant
            n == s@.len(),
            i <= n,
            out@ == html_spec(s@.subrange(0, i as int)),
        decreases n - i,
    {
        let c = s.get_char(i);
        assert(s@.subrange(0, i + 1).drop_last() == s@.subrange(0, i as int));
        if c == '&' {
            out.append("&amp;");
        } else if c == '<' {
            out.append("&lt;");
        } else if c == '>' {
            out.append("&gt;");
        } else if c == '"' {
            out.append("&quot;");
        } else if c == '\'' {
            out.append("&#39;");
        } else {
            let one = s.substring_char(i, i + 1);
            assert(one@ == seq![c]);
            out.append(one);
        }
        i = i + 1;
    }
    assert(s@.subrange(0, n as int) == s@);
    out
}

} // verus!
