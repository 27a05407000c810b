use doot::config::{Config, GroupEntry, Mode, PlanEntry, ResolverEntry};

/// Builds a `Config` from a YAML document the way the application shell
/// does: decode the document structurally, then validate through the
/// library.
fn parse_config(text: &str) -> Result<Config, String> {
    let v: serde_yaml::Value = serde_yaml::from_str(text).map_err(|e| e.to_string())?;
    let version = v
        .get("version")
        .and_then(|x| x.as_str())
        .unwrap_or("")
        .to_string();
    let mode = match v.get("mode").and_then(|x| x.as_str()) {
        Some("link") => Mode::Link,
        _ => Mode::File,
    };
    let mut plans = Vec::new();
    if let Some(m) = v.get("plans").and_then(|x| x.as_mapping()) {
        for (k, val) in m {
            let name = k.as_str().unwrap_or("").to_string();
            let members = match val {
                serde_yaml::Value::Sequence(s) => Some(
                    s.iter()
                        .map(|x| x.as_str().unwrap_or("").to_string())
                        .collect(),
                ),
                _ => None,
            };
            plans.push(PlanEntry { name, members });
        }
    }
    let mut groups = Vec::new();
    if let Some(m) = v.get("groups").and_then(|x| x.as_mapping()) {
        for (k, val) in m {
            let name = k.as_str().unwrap_or("").to_string();
            let mut resolvers = Vec::new();
            if let Some(rm) = val.as_mapping() {
                for (rk, rv) in rm {
                    resolvers.push(ResolverEntry {
                        name: rk.as_str().unwrap_or("").to_string(),
                        path: rv.as_str().unwrap_or("").to_string(),
                    });
                }
            }
            groups.push(GroupEntry { name, resolvers });
        }
    }
    Config::new(version, mode, plans, groups).map_err(|e| e.message())
}

#[test]
fn parse_minimal_config() {
    let config = parse_config("version: v1").unwrap();
    assert_eq!(config.version, "v1");
    assert_eq!(config.mode, Mode::File);
    assert!(config.groups.is_empty());
    assert!(config.plans.is_empty());
}

#[test]
fn parse_rejects_unknown_version() {
    let err = parse_config("version: v99").unwrap_err();
    assert!(err.contains("Unsupported config version"));
}

#[test]
fn parse_mode_link() {
    let config = parse_config("version: v1\nmode: link").unwrap();
    assert_eq!(config.mode, Mode::Link);
}

#[test]
fn get_resolver_from_group() {
    let config = parse_config(
        r#"
version: v1
groups:
  bash:
    nux: "~"
    mac: "$HOME"
"#,
    )
    .unwrap();

    assert_eq!(config.get_resolver("bash", "nux").unwrap(), "~");
    assert_eq!(config.get_resolver("bash", "mac").unwrap(), "$HOME");
}

#[test]
fn get_resolver_missing_group() {
    let config = parse_config("version: v1").unwrap();
    let err = config.get_resolver("nonexistent", "nux").unwrap_err();
    assert!(err.message().contains("Group 'nonexistent' not found"));
}

#[test]
fn get_resolver_missing_resolver() {
    let config = parse_config(
        r#"
version: v1
groups:
  bash:
    nux: "~"
"#,
    )
    .unwrap();

    let err = config.get_resolver("bash", "windows").unwrap_err();
    assert!(err.message().contains("Resolver 'windows' not found"));
}

#[test]
fn empty_plan_returns_all_groups() {
    let config = parse_config(
        r#"
version: v1
plans:
  all:
groups:
  bash:
    nux: "~"
  vim:
    nux: "~"
"#,
    )
    .unwrap();

    let mut groups = config.get_plan_groups("all").unwrap();
    groups.sort();
    assert_eq!(groups, vec!["bash", "vim"]);
}

#[test]
fn explicit_plan_returns_listed_groups() {
    let config = parse_config(
        r#"
version: v1
plans:
  minimal: [bash]
groups:
  bash:
    nux: "~"
  vim:
    nux: "~"
"#,
    )
    .unwrap();

    let groups = config.get_plan_groups("minimal").unwrap();
    assert_eq!(groups, vec!["bash"]);
}

#[test]
fn default_mode_is_file() {
    assert_eq!(Mode::default(), Mode::File);
}

#[test]
fn error_chain_renders_outermost_first() {
    let err = doot::error::Error::new(doot::error::ErrorKind::Io, "cause".to_string())
        .context("operation".to_string());
    assert_eq!(err.message(), "operation: cause");
    assert_eq!(err.kind(), doot::error::ErrorKind::Io);
}
