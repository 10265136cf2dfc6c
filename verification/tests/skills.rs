use my_agent::skills::{
    InstallOutcome, InstallStep, ParsedSkill, SkillError, SkillFile, SkillLibrary, SkillManifest,
    SourceKind, Version, checked_sources, ensure_inside, fallback_summary, is_markdown,
    load_index, pick_skill_files, rank_skills, read_skill, resolve_source, split_skill,
    temporary_path, validate_manifest, validate_name,
};

fn skill(name: &str, version: &str, description: &str, keywords: &str, body: &str) -> String {
    format!(
        "---\nname: {name}\nversion: {version}\ndescription: {description}\nkeywords: [{keywords}]\nscope: [rust]\n---\n# {name}\n{body}\n"
    )
}

fn texts(value: &serde_yaml_ng::Value) -> Vec<String> {
    match value.as_sequence() {
        Some(list) => list.iter().map(|item| item.as_str().unwrap().to_owned()).collect(),
        None => Vec::new(),
    }
}

fn parse(source: &str) -> Option<ParsedSkill> {
    let (front, body) = split_skill(source.as_bytes().to_vec()).ok()?;
    let value: serde_yaml_ng::Value = serde_yaml_ng::from_str(&front).ok()?;
    let manifest = SkillManifest {
        name: value["name"].as_str()?.to_owned(),
        version: Version::parse(value["version"].as_str()?)?,
        description: value["description"].as_str()?.to_owned(),
        keywords: texts(&value["keywords"]),
        scope: texts(&value["scope"]),
    };
    read_skill(manifest, &body).ok()
}

fn file(path: &str, source: &str) -> SkillFile {
    SkillFile { path: path.to_owned(), skill: parse(source) }
}

#[test]
fn installs_high_version_skips_downgrade_and_forces_it() {
    let high = parse(&skill("demo", "2.0.0", "高版本", "rust", "正文")).unwrap();
    let low_source = skill("demo", "1.0.0", "低版本", "rust", "正文");
    let low = parse(&low_source).unwrap();
    let mut library = SkillLibrary::from_env("/w", None, None);

    let InstallStep::Write { target, stale, outcome } = library.install(&high.manifest, false, false)
    else {
        panic!("预期安装");
    };
    assert_eq!(target, "/w/.my-agent/skills/demo.md");
    assert_eq!(stale, None);
    assert!(matches!(outcome, InstallOutcome::Installed { .. }));
    library.refresh(vec![file(&target, &skill("demo", "2.0.0", "高版本", "rust", "正文"))]);
    let InstallStep::Skip(skipped) = library.install(&low.manifest, false, false) else {
        panic!("预期跳过");
    };
    assert_eq!(skipped.text(), "已跳过 demo@1.0.0：已安装更高版本 2.0.0；降级需 --force");
    assert!(matches!(
        library.install(&low.manifest, true, false),
        InstallStep::Write { outcome: InstallOutcome::Installed { .. }, .. }
    ));
    library.refresh(vec![file(&target, &low_source)]);
    assert_eq!(library.list()[0].version, Version::new(1, 0, 0));
}

#[test]
fn skips_bad_frontmatter_and_ranks_exact_keyword_first() {
    let mut library = SkillLibrary::from_env("/w", None, None);
    library.refresh(vec![
        file("/w/.my-agent/skills/bad.md", "---\nname: [broken\n---\n正文"),
        file(
            "/w/.my-agent/skills/exact.md",
            &skill("exact", "1.0.0", "一般描述", "数据库", "正文仅供精确关键词"),
        ),
        file(
            "/w/.my-agent/skills/fuzzy.md",
            &skill("fuzzy", "9.0.0", "数据库迁移辅助", "别的词", "正文"),
        ),
    ]);

    let list = library.list();
    assert_eq!(list.len(), 2);
    let reads = vec![
        parse(&skill("exact", "1.0.0", "一般描述", "数据库", "正文仅供精确关键词")),
        parse(&skill("fuzzy", "9.0.0", "数据库迁移辅助", "别的词", "正文")),
    ];
    let context = library.context_for(&reads, "请检查数据库").unwrap();
    assert!(context.find("### exact@1.0.0").unwrap() < context.find("### fuzzy@9.0.0").unwrap());
}

#[test]
fn update_is_monotonic_and_remove_requires_confirmation() {
    let first = skill("demo", "1.0.0", "第一版", "rust", "正文");
    let second = skill("demo", "1.1.0", "第二版", "rust", "正文");
    let mut library = SkillLibrary::from_env("/w", None, None);
    library.refresh(vec![file("/w/.my-agent/skills/demo.md", &first)]);
    let manifest = parse(&second).unwrap().manifest;
    assert_eq!(SkillLibrary::update("demo", &manifest), Ok(()));
    assert!(matches!(
        library.install(&manifest, false, true),
        InstallStep::Write { outcome: InstallOutcome::Installed { .. }, .. }
    ));
    library.refresh(vec![file("/w/.my-agent/skills/demo.md", &second)]);
    assert!(library.remove("demo", false).is_err());
    let (path, said) = library.remove("demo", true).unwrap();
    assert_eq!(path, "/w/.my-agent/skills/demo.md");
    assert!(said.contains("已删除"));
    library.refresh(Vec::new());
    assert!(library.list().is_empty());
}

#[test]
fn installing_moves_a_skill_out_of_an_old_file() {
    let source = skill("demo", "1.0.0", "版本", "rust", "正文");
    let mut library = SkillLibrary::from_env("/w", Some("s"), Some("7"));
    assert_eq!(library.directory, "/w/s");
    assert_eq!(library.max_matches, 7);
    library.refresh(vec![file("/w/s/old.md", &source)]);
    let manifest = parse(&source).unwrap().manifest;
    let InstallStep::Skip(same) = library.install(&manifest, true, false) else {
        panic!("预期跳过");
    };
    assert_eq!(same.text(), "已跳过 demo@1.0.0：同版本已安装");
    let newer = parse(&skill("demo", "1.0.1", "版本", "rust", "正文")).unwrap().manifest;
    let InstallStep::Write { target, stale, outcome } = library.install(&newer, false, false) else {
        panic!("预期安装");
    };
    assert_eq!(target, "/w/s/demo.md");
    assert_eq!(stale.as_deref(), Some("/w/s/old.md"));
    assert_eq!(outcome.text(), "已安装 demo@1.0.1");
    let other = parse(&skill("other", "1.0.1", "版本", "rust", "正文")).unwrap().manifest;
    let InstallStep::Refuse(error) = library.install(&other, false, true) else {
        panic!("预期拒绝");
    };
    assert_eq!(error, SkillError::NotInstalledForUpdate("other".to_owned()));
    assert_eq!(
        SkillLibrary::update("demo", &other),
        Err(SkillError::NameMismatch("demo".to_owned(), "other".to_owned()))
    );
    assert_eq!(library.remove("other", true), Err(SkillError::NotInstalled("other".to_owned())));
    assert_eq!(library.remove("../x", true), Err(SkillError::InvalidName));
}

#[test]
fn versions_are_ordered_as_semantic_versions() {
    let version = |text: &str| Version::parse(text).unwrap();
    assert!(version("1.2.3").order(&version("1.10.0")) < 0);
    assert!(version("1.0.0-rc.1").order(&version("1.0.0")) < 0);
    assert!(version("1.0.0-alpha").order(&version("1.0.0-alpha.1")) < 0);
    assert_eq!(version("1.0.0").order(&version("1.0.0")), 0);
    assert!(version("2.0.0").order(&version("1.9.9")) > 0);
    assert!(!version("1.0.0+a").same(&version("1.0.0+b")));
    assert_eq!(version("1.2.3-rc.1+b5").text(), "1.2.3-rc.1+b5");
    assert_eq!(Version::parse("1.2"), None);
    assert_eq!(Version::parse("01.2.3"), None);
    assert_eq!(version("1.2.3").copy(), Version::new(1, 2, 3));
}

#[test]
fn skill_sources_are_split_or_refused() {
    let split = |source: &str| split_skill(source.as_bytes().to_vec());
    assert_eq!(
        split("---\r\nname: a\r\n---\r\nbody\r\n"),
        Ok(("name: a".to_owned(), "body\n".to_owned()))
    );
    assert_eq!(split("name: a"), Err(SkillError::MissingStart));
    assert_eq!(split("---\nname: a\n---"), Err(SkillError::MissingEnd));
    assert_eq!(split_skill(vec![0xff]), Err(SkillError::NotUtf8));
    assert_eq!(split_skill(vec![b'a'; 65537]), Err(SkillError::TooLarge));
    assert_eq!(split_skill(vec![b'a'; 65536]), Err(SkillError::MissingStart));
}

#[test]
fn manifests_are_validated() {
    let manifest = || SkillManifest {
        name: "a-b_1".to_owned(),
        version: Version::new(1, 0, 0),
        description: "d".to_owned(),
        keywords: vec!["k".to_owned()],
        scope: vec!["s".to_owned()],
    };
    assert_eq!(validate_manifest(&manifest()), Ok(()));
    assert_eq!(read_skill(manifest(), " \n"), Err(SkillError::EmptyBody));
    assert_eq!(read_skill(manifest(), " x\n").unwrap().body, "x");
    let mut broken = manifest();
    broken.description = " ".to_owned();
    assert_eq!(validate_manifest(&broken), Err(SkillError::EmptyDescription));
    let mut broken = manifest();
    broken.keywords.push("\t".to_owned());
    assert_eq!(validate_manifest(&broken), Err(SkillError::EmptyKeyword));
    let mut broken = manifest();
    broken.scope.push(String::new());
    assert_eq!(validate_manifest(&broken), Err(SkillError::EmptyScope));
    for name in ["", ".a", "a/b", "名", "a.b", "a b"] {
        assert_eq!(validate_name(name), Err(SkillError::InvalidName), "{name}");
    }
}

#[test]
fn sources_and_targets_stay_inside() {
    assert_eq!(resolve_source("/w/a.md", "/w"), Ok(()));
    assert_eq!(
        resolve_source("/wx/a.md", "/w").unwrap_err().message(),
        "拒绝读取工作区外 skill 源：/wx/a.md"
    );
    assert_eq!(checked_sources("/w/a.md", SourceKind::File), Ok(vec!["/w/a.md".to_owned()]));
    assert_eq!(
        checked_sources("/w/a.txt", SourceKind::File),
        Err(SkillError::NotMarkdown("/w/a.txt".to_owned()))
    );
    assert_eq!(
        checked_sources("/w/d", SourceKind::Neither),
        Err(SkillError::NoSource("/w/d".to_owned()))
    );
    let list = vec!["/w/d/b.md".to_owned(), "/w/d/x.txt".to_owned(), "/w/d/a.MD".to_owned()];
    assert_eq!(
        checked_sources("/w/d", SourceKind::Directory(list)),
        Ok(vec!["/w/d/a.MD".to_owned(), "/w/d/b.md".to_owned()])
    );
    assert_eq!(
        checked_sources("/w/d", SourceKind::Directory(Vec::new())),
        Err(SkillError::NoMarkdown("/w/d".to_owned()))
    );
    assert_eq!(ensure_inside("/s/a.md", "/s", "/s"), Ok(()));
    assert_eq!(
        ensure_inside("/s/a.md", "/t", "/s").unwrap_err().message(),
        "skill 目标越过固定目录边界：/s/a.md"
    );
    assert_eq!(SkillError::NoParent.message(), "skill 目标没有父目录");
    assert_eq!(temporary_path("/s", "demo", 9), "/s/.demo.tmp-9");
    assert!(is_markdown("a.Md") && !is_markdown("md") && !is_markdown(".md"));
}

#[test]
fn index_keeps_the_first_of_each_name_and_a_summary() {
    let index = load_index(vec![
        file("a.md", &skill("demo", "1.0.0", "第一", "k", "摘要行")),
        file("b.md", &skill("demo", "2.0.0", "第二", "k", "摘要行")),
    ]);
    assert_eq!(index.len(), 1);
    assert_eq!(index[0].path, "a.md");
    assert_eq!(index[0].summary, "摘要行");
    assert_eq!(fallback_summary("# only\n\n## titles"), "（未提供摘要）");
    assert_eq!(fallback_summary(&"长".repeat(300)).chars().count(), 240);
    let picked = pick_skill_files((0..600).map(|at| format!("{at:03}.md")).rev().collect());
    assert_eq!(picked[0], "000.md");
    assert!(picked.len() < 600);
}

#[test]
fn scores_count_keywords_before_shared_words() {
    let exact = skill("exact", "1.0.0", "一般描述", "数据库", "正文仅供精确关键词");
    let fuzzy = skill("fuzzy", "9.0.0", "数据库迁移辅助", "别的词", "正文");
    let index = load_index(vec![file("e.md", &exact), file("f.md", &fuzzy)]);
    let reads = vec![parse(&exact), parse(&fuzzy)];
    let ranked = rank_skills(&index, &reads, "请检查数据库");
    assert_eq!(ranked.len(), 2);
    assert_eq!(ranked[0].name, "exact");
    assert_eq!(ranked[0].score, 10_000);
    // "fuzzy 数据库迁移辅助 rust 正文" has two words and eight pairs, two of which are asked for.
    assert_eq!(ranked[1].score, 20);
    assert!(rank_skills(&index, &reads, "zzz").is_empty());
}

#[test]
fn context_names_all_skills_and_shows_the_best() {
    let exact = skill("exact", "1.0.0", "一般描述", "数据库", "正文");
    let mut library = SkillLibrary::from_env("/w", None, None);
    assert_eq!(library.context_for(&Vec::new(), "x"), None);
    library.refresh(vec![file("e.md", &exact)]);
    let reads = vec![parse(&exact)];
    assert_eq!(
        library.context_for(&reads, "zzz").as_deref(),
        Some("可用技能索引（仅结构化元数据）：\n- exact@1.0.0：一般描述")
    );
    assert_eq!(
        library.context_for(&reads, "数据库").as_deref(),
        Some(
            "可用技能索引（仅结构化元数据）：\n- exact@1.0.0：一般描述\n\n按当前请求命中的技能正文：\n\n### exact@1.0.0\n# exact\n正文"
        )
    );
}

#[test]
fn equal_fits_are_ranked_by_version_and_then_by_name() {
    let sources = [
        skill("b", "1.0.0", "一般描述", "数据库", "正文"),
        skill("c", "1.2.0-rc.2", "一般描述", "数据库", "正文"),
        skill("a", "1.0.0", "一般描述", "数据库", "正文"),
        skill("d", "1.2.0", "一般描述", "数据库", "正文"),
        skill("e", "1.2.0-rc.10", "一般描述", "数据库", "正文"),
    ];
    let files = sources.iter().map(|source| file("x.md", source)).collect();
    let reads: Vec<Option<ParsedSkill>> = sources.iter().map(|source| parse(source)).collect();
    let ranked = rank_skills(&load_index(files), &reads, "数据库");
    let names: Vec<&str> = ranked.iter().map(|found| found.name.as_str()).collect();
    assert!(ranked.iter().all(|found| found.score == 10_000));
    assert_eq!(names, ["d", "e", "c", "a", "b"]);
}
