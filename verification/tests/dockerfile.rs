//! Reading Dockerfiles.
use moulin::build::parser::{find_keyword, parse_dockerfile, parse_json_array, Instruction, Keyword};

fn told(content: &str) -> Vec<String> {
    parse_dockerfile(content).iter().map(tell).collect()
}

fn tell(i: &Instruction) -> String {
    match i {
        Instruction::From(s) => format!("from {}", s),
        Instruction::Run(s) => format!("run {}", s),
        Instruction::Copy { src, dst } => format!("copy {} {}", src, dst),
        Instruction::Add { src, dst } => format!("add {} {}", src, dst),
        Instruction::Workdir(s) => format!("workdir {}", s),
        Instruction::Env { key, value } => format!("env {}={}", key, value),
        Instruction::Entrypoint(v) => format!("entrypoint {:?}", v),
        Instruction::Cmd(v) => format!("cmd {:?}", v),
        Instruction::User(s) => format!("user {}", s),
        Instruction::Expose(s) => format!("expose {}", s),
    }
}

#[test]
fn reads_every_instruction() {
    let content = "FROM alpine:3.19\n\
        RUN apk add --no-cache python3\n\
        COPY app.py /app/\n\
        ADD data.tar /data\n\
        WORKDIR /app\n\
        ENV APP_ENV=production\n\
        ENTRYPOINT [\"python3\", \"/app/app.py\"]\n\
        CMD run\n\
        USER nobody\n\
        EXPOSE 80/tcp\n";
    assert_eq!(
        told(content),
        vec![
            "from alpine:3.19",
            "run apk add --no-cache python3",
            "copy app.py /app/",
            "add data.tar /data",
            "workdir /app",
            "env APP_ENV=production",
            "entrypoint [\"python3\", \"/app/app.py\"]",
            "cmd [\"run\"]",
            "user nobody",
            "expose 80/tcp",
        ]
    );
}

#[test]
fn comments_and_blank_lines_are_passed_over() {
    let plain = "FROM a\nRUN x \\\n  y\nUSER u\n";
    let commented = "# top\n\nFROM a\n  # note\nRUN x \\\n# between\n\n  y\n\t\nUSER u\n#end";
    assert_eq!(told(plain), told(commented));
    assert_eq!(told(plain), vec!["from a", "run x  y", "user u"]);
}

#[test]
fn a_backslash_continues_a_line() {
    assert_eq!(told("RUN a && \\\n b && \\\n c\n"), vec!["run a &&  b &&  c"]);
    assert_eq!(told("RUN a\\\\\nb\n"), vec!["run a\\ b"]);
    // Nothing follows the last backslash, so the line never ends.
    assert!(told("RUN a \\\n").is_empty());
}

#[test]
fn files_are_read_apart() {
    let first = "FROM a\nRUN b\n";
    let second = "ENV k=v\nCMD c\n";
    let mut apart = told(first);
    apart.extend(told(second));
    assert_eq!(told(&format!("{}{}", first, second)), apart);
    // A line that goes on across the border is read as one.
    assert_eq!(told("RUN b \\\nENV k=v\n"), vec!["run b  ENV k=v"]);
}

#[test]
fn keywords_are_read_in_any_case() {
    assert_eq!(told("from a\nRuN b\neNv k=v\n"), vec!["from a", "run b", "env k=v"]);
    assert!(told("FRMO a\nHEALTHCHECK x\nFROM\n").is_empty());
}

#[test]
fn keywords_agree_with_unicode_capitals() {
    // Only these characters have a capital that is made of basic capital letters.
    for c in (0..=0x10ffffu32).filter_map(char::from_u32) {
        let upper = c.to_uppercase().collect::<String>();
        if !upper.chars().all(|u| u.is_ascii_uppercase()) {
            continue;
        }
        let one = upper.chars().count() == 1;
        for word in ["FROM", "RUN", "COPY", "ADD", "WORKDIR", "ENV", "ENTRYPOINT", "CMD", "USER", "EXPOSE"] {
            if one {
                let spelled = word.replace(upper.as_str(), &c.to_string());
                assert!(find_keyword(&spelled).is_some());
            } else {
                assert!(!word.contains(upper.as_str()));
            }
        }
    }
    assert_eq!(find_keyword("u\u{17f}er").map(|k| k == Keyword::User), Some(true));
    assert!(find_keyword("us\u{e9}r").is_none());
}

#[test]
fn env_takes_pairs_or_a_key_and_a_value() {
    assert_eq!(told("ENV a=1 b=2 c\n"), vec!["env a=1", "env b=2"]);
    assert_eq!(told("ENV key some value\n"), vec!["env key=some value"]);
    assert_eq!(told("ENV a=b=c\n"), vec!["env a=b=c"]);
    assert!(told("ENV alone\n").is_empty());
}

#[test]
fn copy_wants_two_words() {
    assert!(told("COPY one\n").is_empty());
    assert_eq!(told("COPY a b c\n"), vec!["copy a b"]);
}

#[test]
fn commands_are_json_arrays_or_one_word() {
    assert_eq!(
        parse_json_array(" [\"a\", \"b c\"] "),
        Ok(vec!["a".to_string(), "b c".to_string()])
    );
    assert_eq!(parse_json_array("node app.js"), Ok(vec!["node app.js".to_string()]));
    assert_eq!(parse_json_array("[]"), Ok(Vec::new()));
    assert!(parse_json_array("[1]").is_err());
    assert!(told("CMD [1]\nENTRYPOINT [\"a\",]\n").is_empty());
}

#[test]
fn an_empty_file_has_no_instructions() {
    assert!(told("").is_empty());
}
