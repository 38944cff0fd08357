use proc_replay::cli::CliArgs;
use proc_replay::executable::{Executable, OSSpecificExecutable};
use proc_replay::proc::Proc;
use proc_replay::render::{render_script, EnvVar, ProcessFacts};

fn facts() -> ProcessFacts {
    ProcessFacts {
        pid: 77,
        uid: 501,
        cwd: b"/tmp".to_vec(),
        executable_path: b"app".to_vec(),
        argv: vec![b"app".to_vec(), b"--flag".to_vec()],
        environment: vec![EnvVar { key: b"A".to_vec(), value: b"1".to_vec() }],
    }
}

fn opts(command_only: bool, omit_comments: bool) -> Executable {
    Executable::new(CliArgs { pid: 77, command_only, omit_comments })
}

fn text(b: Vec<u8>) -> String {
    String::from_utf8(b).unwrap()
}

#[test]
fn end_to_end_script() {
    let s = text(opts(false, false).extract_info(&facts()));
    assert!(s.starts_with("sudo -i -u \\#501 <<EOF\n"));
    assert!(s.ends_with("\nEOF\n"));
    assert!(s.contains("cd /tmp"));
    assert!(s.contains("export A='1'"));
    assert!(s.contains("app    \\"));
    assert!(s.contains("   --flag"));
    assert_eq!(
        s,
        "sudo -i -u \\#501 <<EOF\n\
         # change cwd user to match the target process\ncd /tmp\n\
         # export env variables to match the target process\nexport A='1'\n\
         # cmdline to match the target process\napp    \\\n   --flag\nEOF\n"
    );
}

#[test]
fn command_only_without_comments() {
    let s = text(render_script(&opts(true, true), &facts()));
    assert_eq!(s, "sudo -i -u \\#501 <<EOF\napp    \\\n   --flag\nEOF\n");
}

#[test]
fn omitted_comments_keep_sections() {
    let s = text(render_script(&opts(false, true), &facts()));
    assert_eq!(s, "sudo -i -u \\#501 <<EOF\ncd /tmp\nexport A='1'\napp    \\\n   --flag\nEOF\n");
}

#[test]
fn empty_environment_leaves_no_blank_line() {
    let mut f = facts();
    f.cwd = b"/x".to_vec();
    f.argv = vec![b"a".to_vec()];
    f.environment.clear();
    let bare = text(render_script(&opts(false, true), &f));
    assert_eq!(bare, "sudo -i -u \\#501 <<EOF\ncd /x\na\nEOF\n");
    let commented = text(render_script(&opts(false, false), &f));
    let stripped: String = commented
        .split_inclusive('\n')
        .filter(|l| !l.starts_with('#'))
        .collect();
    assert_eq!(stripped, bare);
}

#[test]
fn section_lines() {
    let e = opts(false, false);
    let f = facts();
    assert_eq!(e.extract_cwd(&f), vec![b"# change cwd user to match the target process".to_vec(), b"cd /tmp".to_vec()]);
    assert_eq!(e.extract_env_vars(&f)[1], b"export A='1'".to_vec());
    let mut three = facts();
    three.argv.push(b"x".to_vec());
    let lines = opts(false, true).extract_cmdline(&three);
    assert_eq!(lines, vec![b"app    \\\n".to_vec(), b"   --flag \\\n".to_vec(), b"   x\n".to_vec()]);
}

#[test]
fn proc_always_comments() {
    let p = Proc::new(CliArgs { pid: 77, command_only: true, omit_comments: true });
    let s = text(p.extract_info(&facts()));
    assert!(s.contains("# change cwd user to match the target process\ncd /tmp"));
}

#[test]
fn facts_from_buffer() {
    let mut b = 2i32.to_le_bytes().to_vec();
    b.extend_from_slice(b"/bin/app\0\0\0app\0--flag\0\0\0A=1\0NOEQ\0X=a=b\0ptr_munge=1\0");
    let f = Executable::collect_from_buffer(12, 501, b"/tmp".to_vec(), &b).unwrap();
    assert_eq!(f.argv, vec![b"/bin/app".to_vec(), b"--flag".to_vec()]);
    assert_eq!(f.environment.len(), 3);
    assert_eq!(f.environment[0].key, b"A".to_vec());
    assert_eq!(f.environment[0].value, b"1".to_vec());
    assert_eq!(f.environment[1].key, b"NOEQ".to_vec());
    assert!(f.environment[1].value.is_empty());
    assert_eq!(f.environment[2].key, b"X".to_vec());
    assert_eq!(f.environment[2].value, b"a=b".to_vec());
    let s = text(opts(false, true).extract_info(&f));
    assert!(s.contains("export X='a=b'\n"));
}
