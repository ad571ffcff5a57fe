use luafmt::config::{Config, ConfiguredWrite, State};
use luafmt::formatting::decoration::{DecIndent, IncIndent};

#[test]
fn test_decors() -> std::fmt::Result {
    let cfg = Config::default();
    let mut state = State::default();
    let mut buf = String::new();

    // 1
    IncIndent(Some("1".to_string())).configured_write(&mut buf, &cfg, "", &mut state)?;
    assert_eq!(state.indent_level, 1);
    assert_eq!(state.stack_indent, vec![Some("1".to_string())]);

    DecIndent().configured_write(&mut buf, &cfg, "", &mut state)?;
    assert_eq!(state.indent_level, 0);
    assert_eq!(state.stack_indent, Vec::<Option<String>>::new());

    // 2
    IncIndent(Some("1".to_string())).configured_write(&mut buf, &cfg, "", &mut state)?;
    IncIndent(Some("2".to_string())).configured_write(&mut buf, &cfg, "", &mut state)?;
    assert_eq!(state.indent_level, 2);
    assert_eq!(state.stack_indent, vec![Some("1".to_string()), Some("2".to_string())]);

    DecIndent().configured_write(&mut buf, &cfg, "", &mut state)?;
    DecIndent().configured_write(&mut buf, &cfg, "", &mut state)?;
    assert_eq!(state.indent_level, 0);
    assert_eq!(state.stack_indent, Vec::<Option<String>>::new());

    // 3
    IncIndent(Some("1".to_string())).configured_write(&mut buf, &cfg, "", &mut state)?;
    IncIndent(Some("1".to_string())).configured_write(&mut buf, &cfg, "", &mut state)?;
    assert_eq!(state.indent_level, 1);
    assert_eq!(state.stack_indent, vec![Some("1".to_string()), Some("1".to_string())]);

    DecIndent().configured_write(&mut buf, &cfg, "", &mut state)?;
    DecIndent().configured_write(&mut buf, &cfg, "", &mut state)?;
    assert_eq!(state.indent_level, 0);
    assert_eq!(state.stack_indent, Vec::<Option<String>>::new());

    // 4
    IncIndent(Some("1".to_string())).configured_write(&mut buf, &cfg, "", &mut state)?;
    IncIndent(None).configured_write(&mut buf, &cfg, "", &mut state)?;
    IncIndent(Some("1".to_string())).configured_write(&mut buf, &cfg, "", &mut state)?;
    assert_eq!(state.indent_level, 3);
    assert_eq!(state.stack_indent, vec![Some("1".to_string()), None, Some("1".to_string())]);

    DecIndent().configured_write(&mut buf, &cfg, "", &mut state)?;
    DecIndent().configured_write(&mut buf, &cfg, "", &mut state)?;
    DecIndent().configured_write(&mut buf, &cfg, "", &mut state)?;
    assert_eq!(state.indent_level, 0);
    assert_eq!(state.stack_indent, Vec::<Option<String>>::new());

    // 5
    IncIndent(None).configured_write(&mut buf, &cfg, "", &mut state)?;
    IncIndent(None).configured_write(&mut buf, &cfg, "", &mut state)?;
    IncIndent(Some("1".to_string())).configured_write(&mut buf, &cfg, "", &mut state)?;
    IncIndent(Some("1".to_string())).configured_write(&mut buf, &cfg, "", &mut state)?;
    assert_eq!(state.indent_level, 3);
    assert_eq!(state.stack_indent, vec![None, None, Some("1".to_string()), Some("1".to_string())]);

    DecIndent().configured_write(&mut buf, &cfg, "", &mut state)?;
    assert_eq!(state.indent_level, 3);
    assert_eq!(state.stack_indent, vec![None, None, Some("1".to_string())]);

    DecIndent().configured_write(&mut buf, &cfg, "", &mut state)?;
    assert_eq!(state.indent_level, 2);
    assert_eq!(state.stack_indent, vec![None, None]);

    DecIndent().configured_write(&mut buf, &cfg, "", &mut state)?;
    assert_eq!(state.indent_level, 1);
    assert_eq!(state.stack_indent, vec![None]);

    DecIndent().configured_write(&mut buf, &cfg, "", &mut state)?;
    assert_eq!(state.indent_level, 0);
    assert_eq!(state.stack_indent, Vec::<Option<String>>::new());

    Ok(())
}
