use procfs::process::Process;

use proc_replay::cli::CliArgs;
use proc_replay::executable::Executable;
use proc_replay::render::{EnvVar, ProcessFacts};

fn facts_of(proc_file: &Process) -> ProcessFacts {
    let argv: Vec<Vec<u8>> = proc_file.cmdline().unwrap().into_iter().map(String::into_bytes).collect();
    ProcessFacts {
        pid: proc_file.pid(),
        uid: proc_file.status().unwrap().euid,
        cwd: proc_file.cwd().unwrap().into_os_string().into_string().unwrap().into_bytes(),
        executable_path: argv[0].clone(),
        argv,
        environment: proc_file
            .environ()
            .unwrap()
            .into_iter()
            .map(|(k, v)| EnvVar {
                key: k.into_string().unwrap().into_bytes(),
                value: v.into_string().unwrap().into_bytes(),
            })
            .collect(),
    }
}

fn text(lines: Vec<Vec<u8>>) -> Vec<String> {
    lines.into_iter().map(|l| String::from_utf8(l).unwrap()).collect()
}

fn extract_cwd_helper(executable: Executable, proc_file: &Process) {
    let cwd = proc_file.cwd().unwrap();
    let mut i = 0;

    let result = text(executable.extract_cwd(&facts_of(proc_file)));

    if !executable.cli_args.omit_comments {
        assert_eq!(result[i], "# change cwd user to match the target process");
        i += 1;
    }

    assert_eq!(
        result[i],
        format!("cd {}", cwd.into_os_string().into_string().unwrap())
    );
}

#[test]
fn test_extract_cwd() {
    let proc_file = Process::myself().unwrap();

    let executable_default = Executable::new(CliArgs {
        pid: proc_file.pid(),
        command_only: false,
        omit_comments: false,
    });

    extract_cwd_helper(executable_default, &proc_file);

    let executable_omit_comm = Executable::new(CliArgs {
        pid: proc_file.pid(),
        command_only: false,
        omit_comments: false,
    });

    extract_cwd_helper(executable_omit_comm, &proc_file);
}

fn extract_env_vars_helper(executable: Executable, proc_file: &Process) {
    let environ = proc_file.environ().unwrap();
    let result = text(executable.extract_env_vars(&facts_of(proc_file)));

    if !executable.cli_args.omit_comments {
        assert_eq!(
            result[0],
            "# export env variables to match the target process"
        );
    }

    for (key, value) in environ.into_iter() {
        let found = result.iter().find(|x| {
            x.contains(&format!(
                "export {}='{}'",
                key.clone().into_string().unwrap(),
                value.clone().into_string().unwrap()
            ))
        });
        assert!(found.is_some());
    }
}

#[test]
fn test_extract_env_vars() {
    let proc_file = Process::myself().unwrap();

    let executable_default = Executable::new(CliArgs {
        pid: proc_file.pid(),
        command_only: false,
        omit_comments: false,
    });

    extract_env_vars_helper(executable_default, &proc_file);

    let executable_omit_comm = Executable::new(CliArgs {
        pid: proc_file.pid(),
        command_only: false,
        omit_comments: true,
    });

    extract_env_vars_helper(executable_omit_comm, &proc_file);
}

fn extract_cmdline_helper(executable: Executable, proc_file: &Process) {
    let result = text(executable.extract_cmdline(&facts_of(proc_file)));
    let cmdline = proc_file.cmdline().unwrap();
    let mut i = 0;

    if !executable.cli_args.omit_comments {
        assert_eq!(result[i], "# cmdline to match the target process\n");
        i += 1;
    }

    for arg in cmdline.iter() {
        // the program's line pads its continuation backslash with three more spaces
        assert_eq!(
            result[i]
                .trim_start()
                .trim_end_matches(" \\\n")
                .trim_end_matches("\n")
                .trim_end_matches("   "),
            arg
        );
        i += 1;
    }
}

#[test]
fn test_extract_cmdline() {
    let proc_file = Process::myself().unwrap();
    let executable_default = Executable::new(CliArgs {
        pid: proc_file.pid(),
        command_only: false,
        omit_comments: false,
    });

    extract_cmdline_helper(executable_default, &proc_file);
}
