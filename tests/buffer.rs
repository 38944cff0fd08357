use proc_replay::buffer::KernProcArgs2;
use proc_replay::error::CollectError;
use proc_replay::executable::Executable;

fn build(nargs: i32, path: &str, cmd: &str, argv: &[&str], padding: usize, env: &[&str]) -> Vec<u8> {
    let mut b = nargs.to_le_bytes().to_vec();
    for t in [path, cmd].iter().chain(argv.iter()) {
        b.extend_from_slice(t.as_bytes());
        b.push(0);
    }
    b.extend(std::iter::repeat(0u8).take(padding));
    for t in env {
        b.extend_from_slice(t.as_bytes());
        b.push(0);
    }
    b
}

fn parse(b: &[u8]) -> KernProcArgs2 {
    match Executable::parse_kernel_args(&b.to_vec()) {
        Ok(a) => a,
        Err(e) => panic!("{}", e.message()),
    }
}

fn strings(v: &[Vec<u8>]) -> Vec<String> {
    v.iter().map(|t| String::from_utf8(t.clone()).unwrap()).collect()
}

#[test]
fn parses_all_regions() {
    let b = build(3, "/bin/app", "app", &["-v", "x"], 3, &["A=1", "B=2", "ptr_munge=9", "main_stack=0x1"]);
    let a = parse(&b);
    assert_eq!(a.nargs, 3);
    assert_eq!(a.executable_path, b"/bin/app".to_vec());
    assert_eq!(a.executable_cmd, b"app".to_vec());
    assert_eq!(strings(&a.executable_args), vec!["-v", "x"]);
    assert_eq!(strings(&a.environ), vec!["A=1", "B=2"]);
}

#[test]
fn argv_length_follows_count() {
    for n in 0..6 {
        let toks: Vec<String> = (1..n).map(|i| format!("a{}", i)).collect();
        let refs: Vec<&str> = toks.iter().map(|s| s.as_str()).collect();
        let a = parse(&build(n, "/p", "p", &refs, 0, &["K=V"]));
        assert_eq!(a.executable_args.len() as i32, if n >= 1 { n - 1 } else { 0 });
    }
}

#[test]
fn round_trip_keeps_order() {
    let argv = ["one", "two", "three"];
    let env = ["E1=a", "E2=b", "E3=c", "E4=d"];
    let a = parse(&build(4, "/usr/bin/x", "x", &argv, 5, &env));
    assert_eq!(strings(&a.executable_args), argv.to_vec());
    assert_eq!(strings(&a.environ), env.to_vec());
}

#[test]
fn metadata_strings_are_left_out() {
    let env = [
        "ptr_munge=", "main_stack=abc", "executable_file=0x1", "dyld_file=0x2",
        "executable_cdhash=ff", "executable_boothash=ee", "arm64e_abi=os", "KEEP=1", "ptr_mung=2",
    ];
    let a = parse(&build(1, "/p", "p", &[], 1, &env));
    assert_eq!(strings(&a.environ), vec!["KEEP=1", "ptr_mung=2"]);
    assert!(Executable::is_kernel_apple_string(&b"arm64e_abi=os".to_vec()));
    assert!(!Executable::is_kernel_apple_string(&b"arm64e_abi".to_vec()));
    assert!(!Executable::is_kernel_apple_string(&Vec::new()));
}

#[test]
fn padding_does_not_change_result() {
    let base = parse(&build(2, "/p", "p", &["arg"], 0, &["A=1", "B="]));
    for pad in [1usize, 50] {
        let a = parse(&build(2, "/p", "p", &["arg"], pad, &["A=1", "B="]));
        assert_eq!(a.executable_path, base.executable_path);
        assert_eq!(a.executable_args, base.executable_args);
        assert_eq!(a.environ, base.environ);
    }
}

#[test]
fn empty_argument_token_is_kept() {
    let a = parse(&build(4, "/p", "p", &["a", "", "c"], 2, &["Z=1"]));
    assert_eq!(strings(&a.executable_args), vec!["a", "", "c"]);
    assert_eq!(strings(&a.environ), vec!["Z=1"]);
}

#[test]
fn negative_count_gives_no_arguments() {
    let a = parse(&build(-3, "/p", "p", &[], 0, &["E=1"]));
    assert!(a.executable_args.is_empty());
    assert_eq!(a.executable_cmd, b"p".to_vec());
    assert_eq!(strings(&a.environ), vec!["E=1"]);
}

#[test]
fn short_buffers_are_malformed() {
    for b in [vec![1u8, 0], vec![], vec![1u8, 0, 0, 0]] {
        let len = b.len();
        assert_eq!(
            Executable::parse_kernel_args(&b).err(),
            Some(CollectError::MalformedBuffer { len })
        );
    }
    // the count announces more arguments than the buffer holds
    let b = build(5, "/p", "p", &["a"], 0, &[]);
    assert_eq!(
        Executable::parse_kernel_args(&b).err(),
        Some(CollectError::MalformedBuffer { len: b.len() })
    );
    // the buffer ends after the path
    let mut b = 1i32.to_le_bytes().to_vec();
    b.extend_from_slice(b"/p\0\0");
    assert!(Executable::parse_kernel_args(&b).is_err());
}

#[test]
fn unterminated_spans() {
    // a trailing environment span without its NUL is no token
    let mut b = build(1, "/p", "p", &[], 0, &["A=1"]);
    b.extend_from_slice(b"B=2");
    assert_eq!(strings(&parse(&b).environ), vec!["A=1"]);
    // an argument, command name or path without its NUL makes the buffer malformed
    let mut b = 2i32.to_le_bytes().to_vec();
    b.extend_from_slice(b"/p\0p\0arg");
    assert_eq!(
        Executable::parse_kernel_args(&b).err(),
        Some(CollectError::MalformedBuffer { len: b.len() })
    );
    let mut b = 1i32.to_le_bytes().to_vec();
    b.extend_from_slice(b"/p\0p");
    assert!(Executable::parse_kernel_args(&b).is_err());
    let mut b = 1i32.to_le_bytes().to_vec();
    b.extend_from_slice(b"/p");
    assert!(Executable::parse_kernel_args(&b).is_err());
}

#[test]
fn token_reading_primitives() {
    let b = b"ab\0\0\0cd\0".to_vec();
    let mut dest = Vec::new();
    assert_eq!(Executable::do_parse_kernel_args(&b, &mut dest, 0), 5);
    assert_eq!(dest, b"ab".to_vec());
    assert_eq!(Executable::read_arg(&b, &mut dest, 0), 3);
    assert_eq!(Executable::read_arg(&b, &mut dest, 3), 4);
    assert_eq!(dest, Vec::<u8>::new());
    assert_eq!(Executable::do_parse_kernel_args(&b, &mut dest, 5), 8);
    assert_eq!(dest, b"cd".to_vec());
}

#[test]
fn malformed_buffer_returns_no_facts() {
    let r = Executable::collect_from_buffer(9, 501, b"/tmp".to_vec(), &vec![7u8, 0]);
    assert_eq!(r.err(), Some(CollectError::MalformedBuffer { len: 2 }));
}
