use rtk_core::decode::{read_line, read_lines_lossy, ReadLine};
use std::io::{BufRead, BufReader, Read};

#[test]
fn test_read_lines_lossy_preserves_lines_after_invalid_utf8() {
    // Line 2 contains a lone 0xE3 byte (as cp850 has it).
    // `BufRead::lines().map_while(Result::ok)` would stop at that Err and
    // silently lose line 3 as well — not just the bad byte.
    let mut data = Vec::new();
    data.extend_from_slice(b"ERRO A: ascii\n");
    data.extend_from_slice(&[b'E', b'R', b'R', b'O', b' ', b'B', b':', b' ', 0xE3, b'\n']);
    data.extend_from_slice(b"ERRO C: ascii again\n");

    let lines: Vec<String> = read_lines_lossy(data.as_slice(), None, None).lines;
    assert_eq!(lines.len(), 3, "got: {:?}", lines);
    assert_eq!(lines[0], "ERRO A: ascii");
    assert!(lines[1].starts_with("ERRO B: "), "got: {:?}", lines[1]);
    assert!(lines[1].contains('\u{FFFD}'), "got: {:?}", lines[1]);
    assert_eq!(lines[2], "ERRO C: ascii again");
}

#[test]
fn test_read_lines_lossy_strips_crlf() {
    let lines: Vec<String> = read_lines_lossy(&b"a\r\nb\n"[..], None, None).lines;
    assert_eq!(lines, vec!["a".to_string(), "b".to_string()]);
}

#[test]
fn test_read_lines_lossy_no_trailing_newline() {
    let lines: Vec<String> = read_lines_lossy(&b"only line"[..], None, None).lines;
    assert_eq!(lines, vec!["only line".to_string()]);
}

#[test]
fn test_read_lines_lossy_empty_input() {
    let lines: Vec<String> = read_lines_lossy(&b""[..], None, None).lines;
    assert!(lines.is_empty());
}

/// A reader that yields some good lines, and then fails: once, or on every further read.
struct FailingReader {
    data: std::io::Cursor<Vec<u8>>,
    failed: bool,
    keeps_failing: bool,
}

impl Read for FailingReader {
    fn read(&mut self, buf: &mut [u8]) -> std::io::Result<usize> {
        if self.data.position() as usize >= self.data.get_ref().len() {
            if !self.failed || self.keeps_failing {
                self.failed = true;
                return Err(std::io::Error::other("simulated read failure"));
            }
            return Ok(0);
        }
        std::io::Read::read(&mut self.data, buf)
    }
}

/// Reads lines until the library says that there are no more.
fn read_all(reader: impl Read) -> (Vec<String>, Option<String>) {
    let mut lines: Vec<String> = Vec::new();
    let mut reads = BufReader::new(reader).split(b'\n');
    loop {
        let item = match reads.next() {
            Some(Ok(raw)) => read_line(Ok(Some(raw.as_slice())), None),
            Some(Err(error)) => read_line(Err(error.to_string().as_str()), None),
            None => read_line(Ok(None), None),
        };
        match item {
            ReadLine::Line(line) => lines.push(line),
            ReadLine::End(notice) => return (lines, notice),
        }
    }
}

#[test]
fn test_read_lines_lossy_stops_on_io_error_without_panicking() {
    for keeps_failing in [false, true] {
        let reader = FailingReader {
            data: std::io::Cursor::new(b"line one\nline two\n".to_vec()),
            failed: false,
            keeps_failing,
        };
        // The two good lines are still yielded; the failure after them must
        // not panic or hang -- it just ends the lines, as a clean end would.
        let (lines, notice) = read_all(reader);
        assert_eq!(lines, vec!["line one".to_string(), "line two".to_string()]);
        assert_eq!(notice.as_deref(), Some("rtk: stream read error: simulated read failure"));
    }
    let read = read_lines_lossy(b"line one\nline two\n", Some("simulated read failure"), None);
    assert_eq!(read.lines, vec!["line one".to_string(), "line two".to_string()]);
    assert_eq!(read.notice.as_deref(), Some("rtk: stream read error: simulated read failure"));
}

#[test]
fn a_failure_loses_only_the_line_that_it_cuts_short() {
    for data in [&b""[..], b"a\n", b"a\r\nb\n", b"a\nb", b"cut"] {
        let reader = FailingReader {
            data: std::io::Cursor::new(data.to_vec()),
            failed: false,
            keeps_failing: true,
        };
        let (lines, notice) = read_all(reader);
        let read = read_lines_lossy(data, Some("simulated read failure"), None);
        assert_eq!(read.lines, lines);
        assert_eq!(read.notice, notice);
        let complete = read_lines_lossy(data, None, None);
        assert!(complete.notice.is_none());
        assert_eq!(read_all(data), (complete.lines.clone(), None));
        let cut = !data.is_empty() && data[data.len() - 1] != b'\n';
        assert_eq!(lines[..], complete.lines[..complete.lines.len() - cut as usize]);
    }
}

#[test]
fn lines_are_decoded_with_the_code_page() {
    let data = [0xB2, 0xE2, b'\r', b'\n', b'x'];
    assert_eq!(read_lines_lossy(&data, None, Some(936)).lines, vec!["测", "x"]);
}
