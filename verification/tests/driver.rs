use std::cell::RefCell;
use std::collections::VecDeque;
use std::rc::Rc;

use micronuts::qr::driver::{
    setting_from_reply, success_reply, BaudRate, Gm65Scanner, Gm65Uart, ScanBuffer,
    ScannerConfig, ScannerDriver, ScannerError, ScannerModel, ScannerState, UartReadError,
};

const ACK: [u8; 7] = [0x02, 0x00, 0x00, 0x01, 0x00, 0x33, 0x31];

/// A scanner on a wire: answers every command with a success reply while
/// `answering`, and plays back queued scan bytes. The test keeps a handle
/// to the shared line to feed it while the driver owns the UART.
#[derive(Default)]
struct Line {
    rx: VecDeque<u8>,
    writes: Vec<Vec<u8>>,
    answering: bool,
    broken: bool,
}

struct MockUart(Rc<RefCell<Line>>);

fn mock(answering: bool) -> (MockUart, Rc<RefCell<Line>>) {
    let line = Rc::new(RefCell::new(Line { answering, ..Line::default() }));
    (MockUart(line.clone()), line)
}

impl Gm65Uart for MockUart {
    fn read(&mut self) -> Result<u8, UartReadError> {
        let mut l = self.0.borrow_mut();
        if l.broken {
            return Err(UartReadError::Other);
        }
        l.rx.pop_front().ok_or(UartReadError::WouldBlock)
    }

    fn bwrite_all(&mut self, data: &[u8]) -> Result<(), ()> {
        let mut l = self.0.borrow_mut();
        l.writes.push(data.to_vec());
        if l.answering {
            l.rx.extend(ACK.iter().copied());
        }
        Ok(())
    }

    fn drain(&mut self) {
        self.0.borrow_mut().rx.clear();
    }
}

#[test]
fn scan_buffer_collects_and_strips_line_end() {
    let mut buf = ScanBuffer::new();
    assert!(buf.is_empty());
    for b in b"cashuB\r\n" {
        assert!(buf.push(*b));
    }
    assert_eq!(buf.len(), 8);
    assert!(buf.has_eol());
    assert_eq!(buf.data_without_eol(), b"cashuB");
    assert_eq!(buf.as_slice(), b"cashuB\r\n");
    buf.clear();
    assert!(buf.is_empty());
    assert!(!buf.has_eol());
    buf.push(b'x');
    buf.push(b'\n');
    assert_eq!(buf.data_without_eol(), b"x");
}

#[test]
fn scan_buffer_refuses_bytes_when_full() {
    let mut buf = ScanBuffer::default();
    let mut accepted = 0;
    while buf.push(b'a') {
        accepted += 1;
    }
    assert_eq!(accepted, buf.len());
    assert!(!buf.push(b'b'));
    assert_eq!(buf.len(), accepted);
}

#[test]
fn success_reply_and_setting_value() {
    assert!(success_reply(&[0x02, 0x00, 0x00, 0x01, 0x42, 0x00, 0x00]));
    assert!(!success_reply(&[0x02, 0x00, 0x00, 0x01, 0x42, 0x00]));
    assert!(!success_reply(&[0x03, 0x00, 0x00, 0x01, 0x42, 0x00, 0x00]));
    assert_eq!(setting_from_reply(&[0x02, 0x00, 0x00, 0x01, 0x42, 0x00, 0x00]), Some(0x42));
    assert_eq!(setting_from_reply(&[0x02, 0x00, 0x00, 0x00, 0x42, 0x00, 0x00]), None);
}

#[test]
fn names_and_baud_rates() {
    assert_eq!(ScannerModel::Gm65.to_string(), "GM65");
    assert_eq!(ScannerModel::Unknown.to_string(), "Unknown");
    assert_eq!(ScannerError::Timeout.to_string(), "Communication timeout");
    assert_eq!(ScannerError::UartError.to_string(), "UART error");
    assert_eq!(BaudRate::Bps9600.as_u32(), 9600);
    assert_eq!(BaudRate::Bps115200.as_u32(), 115200);
    let cfg = ScannerConfig::default();
    assert_eq!(cfg.model, ScannerModel::Unknown);
    assert_eq!(cfg.baud_rate, 9600);
    assert!(cfg.raw_mode);
}

#[test]
fn init_configures_an_answering_scanner() {
    let (uart, line) = mock(true);
    let mut scanner = Gm65Scanner::with_default_config(uart);
    assert_eq!(scanner.state(), ScannerState::Uninitialized);
    assert_eq!(scanner.init(), Ok(ScannerModel::Gm65));
    assert_eq!(scanner.state(), ScannerState::Ready);
    let status = scanner.status();
    assert!(status.initialized);
    assert!(status.connected);
    assert_eq!(status.model, ScannerModel::Gm65);
    assert_eq!(status.config.model, ScannerModel::Gm65);
    assert!(scanner.ping());
    let writes = line.borrow().writes.clone();
    assert!(writes.len() > 8);
    assert!(writes.iter().all(|w| w[0] == 0x7E && w[1] == 0x00));
}

#[test]
fn init_reports_a_silent_scanner() {
    let (uart, _line) = mock(false);
    let mut scanner = Gm65Scanner::with_default_config(uart);
    assert_eq!(scanner.init(), Err(ScannerError::NotDetected));
    assert_eq!(scanner.state(), ScannerState::Error(ScannerError::NotDetected));
    assert!(!scanner.status().initialized);
    assert!(!scanner.ping());
}

#[test]
fn scanning_needs_init() {
    let (uart, _line) = mock(true);
    let mut scanner = Gm65Scanner::with_default_config(uart);
    assert_eq!(scanner.trigger_scan(), Err(ScannerError::NotInitialized));
    assert_eq!(scanner.read_scan(), None);
    assert_eq!(scanner.state(), ScannerState::Uninitialized);
}

#[test]
fn read_scan_strips_line_end_and_records_length() {
    let (uart, line) = mock(true);
    let mut scanner = Gm65Scanner::with_default_config(uart);
    scanner.init().unwrap();
    scanner.trigger_scan().unwrap();
    assert_eq!(scanner.state(), ScannerState::Scanning);
    {
        let mut l = line.borrow_mut();
        l.answering = false;
        l.rx.clear();
        l.rx.extend(b"ur:bytes/1-2/ab/xyz\r\n".iter().copied());
    }
    assert_eq!(scanner.read_scan(), Some(b"ur:bytes/1-2/ab/xyz".to_vec()));
    assert_eq!(scanner.state(), ScannerState::ScanComplete);
    assert!(scanner.data_ready());
    assert_eq!(scanner.status().last_scan_len, Some(19));
}

#[test]
fn read_scan_times_out_and_reports_uart_errors() {
    let (uart, line) = mock(true);
    let mut scanner = Gm65Scanner::with_default_config(uart);
    scanner.init().unwrap();
    line.borrow_mut().rx.clear();
    assert_eq!(scanner.read_scan(), None);
    assert_eq!(scanner.state(), ScannerState::Error(ScannerError::Timeout));
    line.borrow_mut().broken = true;
    assert_eq!(scanner.read_scan(), None);
    assert_eq!(scanner.state(), ScannerState::Error(ScannerError::UartError));
}

#[test]
fn empty_line_is_not_a_scan() {
    let (uart, line) = mock(true);
    let mut scanner = Gm65Scanner::with_default_config(uart);
    scanner.init().unwrap();
    {
        let mut l = line.borrow_mut();
        l.rx.clear();
        l.rx.extend(b"\r\n".iter().copied());
    }
    assert_eq!(scanner.read_scan(), None);
    assert_eq!(scanner.status().last_scan_len, None);
}

#[test]
fn silent_scanner_gets_one_probe_only() {
    let (uart, line) = mock(false);
    let mut scanner = Gm65Scanner::new(uart, ScannerConfig::default());
    assert_eq!(scanner.init(), Err(ScannerError::NotDetected));
    assert_eq!(scanner.trigger_scan(), Err(ScannerError::NotInitialized));
    let writes = line.borrow().writes.clone();
    assert_eq!(writes, vec![vec![0x7E, 0x00, 0x07, 0x01, 0x00, 0x0D, 0x01, 0xAB, 0xCD]]);
}

#[test]
fn init_writes_the_configuration_sequence() {
    let (uart, line) = mock(true);
    let mut scanner = Gm65Scanner::with_default_config(uart);
    assert_eq!(scanner.init(), Ok(ScannerModel::Gm65));
    let writes = line.borrow().writes.clone();
    let get = |a: u8| vec![0x7E, 0x00, 0x07, 0x01, 0x00, a, 0x01, 0xAB, 0xCD];
    let set = |a: u8, v: u8| vec![0x7E, 0x00, 0x08, 0x01, 0x00, a, v, 0xAB, 0xCD];
    // Every read answers 0x00: serial mode needs no change, settings other
    // than 0x00 are rewritten, version 0x00 needs no RAW mode.
    let expected = vec![
        get(0x0D),
        get(0x0D),
        get(0x00),
        set(0x00, 0xD1),
        get(0x06),
        get(0x05),
        set(0x05, 0x01),
        get(0x13),
        set(0x13, 0x85),
        get(0x2C),
        set(0x2C, 0x01),
        get(0x3F),
        set(0x3F, 0x01),
        get(0xE2),
        vec![0x7E, 0x00, 0x09, 0x01, 0x00, 0x00, 0x00, 0xDE, 0xC8],
        vec![0x7E, 0x00, 0x08, 0x02, 0x00, 0x2A, 0x1A, 0x00, 0xAB, 0xCD],
    ];
    assert_eq!(writes, expected);
}

#[test]
fn read_scan_reports_overflow() {
    let (uart, line) = mock(true);
    let mut scanner = Gm65Scanner::with_default_config(uart);
    scanner.init().unwrap();
    {
        let mut l = line.borrow_mut();
        l.answering = false;
        l.rx.clear();
        l.rx.extend(std::iter::repeat(b'a').take(2049));
    }
    assert_eq!(scanner.read_scan(), None);
    assert_eq!(scanner.state(), ScannerState::Error(ScannerError::BufferOverflow));
}
