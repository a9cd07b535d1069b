use orchd::custom_commands::{
    display_commands_table, execute_prompt, extract_arguments, parse_command_description,
    render_command, CommandPrefix, CustomCommand,
};
use orchd::str_map::StrMap;

fn review_command() -> CustomCommand {
    CustomCommand {
        name: "review".to_string(),
        prefix: CommandPrefix::Project,
        description: "Review".to_string(),
        template: "Review $PR in $ENV".to_string(),
        arguments: vec!["PR".to_string(), "ENV".to_string()],
        source_path: "review.md".to_string(),
    }
}

#[test]
fn extract_arguments_finds_uppercase_patterns() {
    let args = extract_arguments("Hello $NAME in $ENV");
    assert_eq!(args, vec!["NAME", "ENV"]);
}

#[test]
fn extract_arguments_deduplicates() {
    let args = extract_arguments("$NAME then again $NAME");
    assert_eq!(args, vec!["NAME"]);
}

#[test]
fn extract_arguments_ignores_lowercase() {
    let args = extract_arguments("$name and $Name and $UPPER");
    assert_eq!(args, vec!["UPPER"]);
}

#[test]
fn parse_command_description_from_heading() {
    let (description, body) = parse_command_description("# Review PR\nBody line");
    assert_eq!(description, "Review PR");
    assert_eq!(body, "Body line");
}

#[test]
fn parse_command_description_from_html_comment() {
    let (description, body) =
        parse_command_description("<!-- description: Deploy app -->\nRun $ENV");
    assert_eq!(description, "Deploy app");
    assert_eq!(body, "Run $ENV");
}

#[test]
fn parse_command_description_without_description() {
    let (description, body) = parse_command_description("Run checks\nMore");
    assert_eq!(description, "");
    assert_eq!(body, "Run checks\nMore");
}

#[test]
fn render_command_replaces_arguments() {
    let command = review_command();
    let mut args = StrMap::new();
    args.insert("PR".to_string(), "123".to_string());
    args.insert("ENV".to_string(), "staging".to_string());
    let rendered = render_command(&command, &args).expect("render command");
    assert_eq!(rendered, "Review 123 in staging");
}

#[test]
fn render_command_errors_on_missing_args() {
    let command = review_command();
    let mut args = StrMap::new();
    args.insert("PR".to_string(), "123".to_string());
    let err = render_command(&command, &args).expect_err("expected missing arg");
    assert_eq!(err, "Missing required argument: ENV");
}

#[test]
fn display_commands_table_formats_rows() {
    let commands = vec![CustomCommand {
        name: "review".to_string(),
        prefix: CommandPrefix::User,
        description: "Review changes".to_string(),
        template: "Review $PR".to_string(),
        arguments: vec!["PR".to_string()],
        source_path: "review.md".to_string(),
    }];
    let table = display_commands_table(&commands);
    assert!(table.contains("COMMAND"));
    assert!(table.contains("user:review"));
    assert!(table.contains("PR"));
    assert!(table.contains("Review changes"));
}

#[test]
fn execute_prompt_returns_structured_result() {
    let result = execute_prompt("hello", "codex", "text");
    assert_eq!(result.prompt, "hello");
    assert_eq!(result.model, "codex");
    assert_eq!(result.tokens_used, 0);
    assert!(result.response.contains("Would execute prompt with model codex: hello"));
}

#[test]
fn command_prefix_display() {
    assert_eq!(CommandPrefix::User.to_string(), "user");
    assert_eq!(CommandPrefix::Project.to_string(), "project");
}

#[test]
fn display_commands_table_exact_layout() {
    let commands = vec![CustomCommand {
        name: "x".to_string(),
        prefix: CommandPrefix::User,
        description: "d".to_string(),
        template: String::new(),
        arguments: vec![],
        source_path: "x.md".to_string(),
    }];
    assert_eq!(
        display_commands_table(&commands),
        "COMMAND  ARGS  DESCRIPTION\n-------  ----  -----------\nuser:x   -     d\n"
    );
    assert_eq!(display_commands_table(&[].to_vec()), "No custom commands found.");
}

#[test]
fn render_command_keeps_unknown_and_rejected_references() {
    let command = CustomCommand {
        template: "$A $Bc $UNKNOWN $".to_string(),
        arguments: vec![],
        ..review_command()
    };
    let mut args = StrMap::new();
    args.insert("A".to_string(), "1".to_string());
    args.insert("B".to_string(), "2".to_string());
    assert_eq!(render_command(&command, &args), Ok("1 $Bc $UNKNOWN $".to_string()));
}

#[test]
fn parse_description_edge_cases() {
    assert_eq!(parse_command_description(""), (String::new(), String::new()));
    assert_eq!(
        parse_command_description("#  Title  \r\nbody\n"),
        ("Title".to_string(), "body\n".to_string())
    );
    assert_eq!(
        parse_command_description("# only"),
        ("only".to_string(), String::new())
    );
}

#[test]
fn render_command_copies_non_ascii_text() {
    let command = CustomCommand {
        name: "cafe".to_string(),
        prefix: CommandPrefix::User,
        description: "Café".to_string(),
        template: "café — ünïcode $PR ✓".to_string(),
        arguments: vec!["PR".to_string()],
        source_path: "cafe.md".to_string(),
    };
    let mut args = StrMap::new();
    args.insert("PR".to_string(), "né".to_string());
    assert_eq!(render_command(&command, &args).unwrap(), "café — ünïcode né ✓");
    let plain = CustomCommand { template: "café".to_string(), arguments: vec![], ..command };
    assert_eq!(render_command(&plain, &StrMap::new()).unwrap(), "café");
}

#[test]
fn discover_commands_from_dir_reads_markdown_and_subdirs() {
    let files = vec![
        ("review.md".to_string(), "# Review\nCheck $PR_ID".to_string(), "/c/review.md".to_string()),
        ("notes.txt".to_string(), "not a command".to_string(), "/c/notes.txt".to_string()),
        ("deploy/prod.md".to_string(), "Deploy $ENV".to_string(), "/c/deploy/prod.md".to_string()),
    ];
    let commands = orchd::custom_commands::discover_commands_from_dir(&files, CommandPrefix::User);
    assert_eq!(commands.len(), 2);
    assert!(commands.iter().any(|c| c.name == "review" && c.description == "Review"));
    assert!(commands.iter().any(|c| c.name == "deploy:prod" && c.description == "deploy:prod"));
    assert_eq!(commands[0].name, "deploy:prod");
    assert_eq!(commands[0].arguments, vec!["ENV".to_string()]);
    assert_eq!(commands[1].arguments, vec!["PR_ID".to_string()]);
    assert_eq!(commands[1].source_path, "/c/review.md");
}

#[test]
fn render_command_copies_templates_without_references() {
    let command = CustomCommand {
        name: "plain".to_string(),
        prefix: CommandPrefix::Project,
        description: "Plain".to_string(),
        template: "No references here, only text: 100% ✓".to_string(),
        arguments: vec![],
        source_path: "plain.md".to_string(),
    };
    let mut args = StrMap::new();
    args.insert("X".to_string(), "unused".to_string());
    assert_eq!(render_command(&command, &args).unwrap(), command.template);
    assert_eq!(render_command(&command, &StrMap::new()).unwrap(), command.template);
}
