use buffa::packaging::{
    feature_flags, parse_options, select_packages, splice_after_inner_attrs, white_space,
    FileSummary, Filter, PluginOption,
};

#[test]
fn splice_after_inner_attrs_handles_edge_inputs() {
    // Typical module-tree prefix: comment, inner attr, blank line.
    assert_eq!(
        splice_after_inner_attrs("// header\n#![allow(x)]\n\npub mod a;\n", "ITEM"),
        "// header\n#![allow(x)]\n\nITEM\npub mod a;\n"
    );
    // Empty input: the item is the whole file.
    assert_eq!(splice_after_inner_attrs("", "ITEM"), "ITEM\n");
    // No inner attrs or comments: the item leads.
    assert_eq!(
        splice_after_inner_attrs("pub mod a;\n", "ITEM"),
        "ITEM\npub mod a;\n"
    );
    // Comment-only file: everything is prefix, item lands at the end.
    assert_eq!(
        splice_after_inner_attrs("// only\n", "ITEM"),
        "// only\nITEM\n"
    );
    // Missing trailing newline on the last prefix line: the item follows it.
    assert_eq!(
        splice_after_inner_attrs("#![allow(x)]", "ITEM"),
        "#![allow(x)]ITEM\n"
    );
}

#[test]
fn indented_header_lines_and_later_comments() {
    // Leading white space before a comment keeps the line in the header.
    assert_eq!(
        splice_after_inner_attrs("  // a\n\t#![b]\nfn x() {}\n// c\n", "I"),
        "  // a\n\t#![b]\nI\nfn x() {}\n// c\n"
    );
    // A lone `/` or `#` is not a header line.
    assert_eq!(splice_after_inner_attrs("/ x\n", "I"), "I\n/ x\n");
    assert_eq!(splice_after_inner_attrs("#[x]\n", "I"), "I\n#[x]\n");
    // A line of white space only is blank, and non-ASCII text is kept whole.
    assert_eq!(
        splice_after_inner_attrs("\u{3000}\n// é\nmod ü;\n", "I"),
        "\u{3000}\n// é\nI\nmod ü;\n"
    );
}

#[test]
fn the_plugin_declares_optional_fields_and_editions() {
    assert_eq!(feature_flags(), 3);
}

#[test]
fn white_space_is_unicodes() {
    for c in [' ', '\t', '\n', '\u{b}', '\u{c}', '\r', '\u{85}', '\u{a0}', '\u{2003}', '\u{3000}'] {
        assert!(white_space(c));
        assert_eq!(white_space(c), c.is_whitespace());
    }
    for c in ['a', '/', '#', '\u{200b}', '\u{feff}'] {
        assert!(!white_space(c));
        assert_eq!(white_space(c), c.is_whitespace());
    }
}

#[test]
fn unknown_filter_errors() {
    let (_, err) = parse_options("filter=bogus");
    let err = err.unwrap();
    assert!(err.contains("bogus"));
}

#[test]
fn unknown_option_errors() {
    let (_, err) = parse_options("bogus_option");
    let err = err.unwrap();
    assert!(err.contains("bogus_option"));
}

#[test]
fn empty_filter_value_errors() {
    // `filter=` with no value hits the unknown-filter arm with `""`.
    let (_, err) = parse_options("filter=");
    let err = err.unwrap();
    assert!(err.contains("unknown filter"));
}

#[test]
fn options_are_read_in_order_and_trimmed() {
    let (opts, err) = parse_options(
        " filter= services ,,shared_descriptor_pool= true,exclude_package=.buf.validate, element_memory_limit =42",
    );
    assert_eq!(err, None);
    assert_eq!(
        opts,
        vec![
            PluginOption::Filter(Filter::Services),
            PluginOption::SharedPool(true),
            PluginOption::ExcludePackage(".buf.validate".to_string()),
            PluginOption::ElementMemoryLimit,
        ]
    );
    assert_eq!(parse_options(""), (Vec::new(), None));
    assert_eq!(parse_options(" , ,"), (Vec::new(), None));
}

#[test]
fn option_errors_quote_the_value_and_stop_the_reading() {
    let (opts, err) = parse_options("shared_descriptor_pool=false,shared_descriptor_pool=yes,filter=x");
    assert_eq!(opts, vec![PluginOption::SharedPool(false)]);
    assert_eq!(
        err.as_deref(),
        Some("invalid shared_descriptor_pool value \"yes\", expected true or false")
    );
    let (_, err) = parse_options("filter=all");
    assert_eq!(err.as_deref(), Some("unknown filter \"all\". Supported: services"));
    let (_, err) = parse_options("x=\"1\"");
    assert_eq!(
        err.as_deref(),
        Some(
            "unknown plugin option \"x=\\\"1\\\"\". Supported: filter=services, \
             exclude_package=<pkg>, element_memory_limit=<bytes>, shared_descriptor_pool=<bool>"
        )
    );
}

#[test]
fn an_option_name_is_not_trimmed_before_its_equals_sign() {
    let (opts, err) = parse_options("filter = services");
    assert!(opts.is_empty());
    assert_eq!(
        err.as_deref(),
        Some(
            "unknown plugin option \"filter = services\". Supported: filter=services, \
             exclude_package=<pkg>, element_memory_limit=<bytes>, shared_descriptor_pool=<bool>"
        )
    );
}

fn file(name: &str, package: &str, has_service: bool, excluded: bool) -> FileSummary {
    FileSummary {
        name: Some(name.to_string()),
        package: package.to_string(),
        has_service,
        excluded,
    }
}

fn names(files: &[FileSummary]) -> Vec<String> {
    files.iter().map(|f| f.name.clone().unwrap()).collect()
}

#[test]
fn every_requested_package_is_selected_without_a_filter() {
    let files = vec![
        file("foo/v1/svc.proto", "foo.v1", true, false),
        file("bar/v1/types.proto", "bar.v1", false, false),
    ];
    let got = select_packages(Filter::All, &files, &names(&files)).unwrap();
    // Each package once, in the order of their names.
    assert_eq!(got, vec!["bar.v1".to_string(), "foo.v1".to_string()]);
}

#[test]
fn the_services_filter_selects_packages_with_a_service() {
    let files = vec![
        file("foo/v1/svc.proto", "foo.v1", true, false),
        file("bar/v1/types.proto", "bar.v1", false, false),
    ];
    let got = select_packages(Filter::Services, &files, &names(&files)).unwrap();
    assert_eq!(got, vec!["foo.v1".to_string()]);
}

#[test]
fn an_excluded_package_is_dropped_even_with_a_service() {
    let files = vec![
        file("foo/v1/svc.proto", "foo.v1", true, false),
        file("secret/v1/svc.proto", "secret.v1", true, true),
    ];
    let got = select_packages(Filter::Services, &files, &names(&files)).unwrap();
    assert_eq!(got, vec!["foo.v1".to_string()]);
}

#[test]
fn a_package_of_several_files_is_selected_once() {
    let files = vec![
        file("a/one.proto", "a", false, false),
        file("b/two.proto", "b", true, false),
        file("a/three.proto", "a", true, false),
    ];
    let got = select_packages(Filter::All, &files, &names(&files)).unwrap();
    assert_eq!(got, vec!["a".to_string(), "b".to_string()]);
    // With the filter, `a` comes in through its file that has a service.
    let got = select_packages(Filter::Services, &files, &names(&files)).unwrap();
    assert_eq!(got, vec!["a".to_string(), "b".to_string()]);
    // A prefix comes before what extends it.
    let files = vec![
        file("x/y.proto", "foo.v1", false, false),
        file("x/z.proto", "foo", false, false),
        file("x/w.proto", "", false, false),
    ];
    let got = select_packages(Filter::All, &files, &names(&files)).unwrap();
    assert_eq!(got, vec![String::new(), "foo".to_string(), "foo.v1".to_string()]);
}

#[test]
fn only_the_requested_files_are_read() {
    let files = vec![
        file("a/one.proto", "a", false, false),
        file("dep/dep.proto", "dep", false, false),
    ];
    let got = select_packages(Filter::All, &files, &vec!["a/one.proto".to_string()]).unwrap();
    assert_eq!(got, vec!["a".to_string()]);
}

#[test]
fn missing_descriptor_errors() {
    let err = select_packages(Filter::All, &vec![], &vec!["orphan.proto".to_string()]).unwrap_err();
    assert!(err.contains("orphan.proto"));
    assert_eq!(
        err,
        "file_to_generate entry \"orphan.proto\" has no FileDescriptorProto"
    );
}
