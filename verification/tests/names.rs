use pictray::paths::{
    image_file_extension, is_gif_file, is_png_file, is_supported_image_file, is_text_file,
    looks_like_supported_text_path, looks_like_text_bytes, normalized_file_extension,
    normalized_file_extension_from_name, normalized_text_extension, persisted_text_extension,
    ComponentKind, FilePath, PathComponent,
};
use pictray::summary::{
    build_text_preview, compact_text_preview_line, load_display_name, normalize_display_name,
    short_display_id,
};
use pictray::text::{
    parse_utf8, push_decimal, split_lines, to_ascii_lower, to_ascii_upper, trim_text, white_space,
};

fn named(bytes: &[u8]) -> FilePath {
    FilePath {
        text: String::from_utf8_lossy(bytes).into_owned(),
        parent: Some(String::new()),
        components: vec![PathComponent { kind: ComponentKind::Normal, name: bytes.to_vec() }],
    }
}

fn file(name: &str) -> FilePath {
    named(name.as_bytes())
}

/// A path that is written as text, taken apart.
fn written(text: &str) -> FilePath {
    let path = std::path::Path::new(text);
    let components = path.components().map(|component| PathComponent {
        kind: match component {
            std::path::Component::Prefix(_) => ComponentKind::Prefix,
            std::path::Component::RootDir => ComponentKind::RootDir,
            std::path::Component::CurDir => ComponentKind::CurDir,
            std::path::Component::ParentDir => ComponentKind::ParentDir,
            std::path::Component::Normal(_) => ComponentKind::Normal,
        },
        name: component.as_os_str().as_encoded_bytes().to_vec(),
    });
    FilePath {
        text: text.to_owned(),
        parent: path.parent().and_then(|parent| parent.to_str()).map(str::to_owned),
        components: components.collect(),
    }
}

/// A prefix of the platform alone.
fn prefixed(prefix: &str) -> FilePath {
    FilePath {
        text: prefix.to_owned(),
        parent: None,
        components: vec![PathComponent {
            kind: ComponentKind::Prefix,
            name: prefix.as_bytes().to_vec(),
        }],
    }
}

#[test]
fn white_space_is_that_of_unicode() {
    for code in 0..0x11_0000u32 {
        if let Some(c) = char::from_u32(code) {
            assert_eq!(white_space(c), c.is_whitespace(), "{code:x}");
        }
    }
}

#[test]
fn trimming_and_case() {
    for text in ["", " ", "a", " a b\t", "\u{3000}x\u{2003}", "\n\nq\r\n", "\u{200b}z"] {
        assert_eq!(trim_text(text), text.trim());
        assert_eq!(trim_text(&trim_text(text)), text.trim());
    }
    for text in ["", "MiXeD 09 [`{", "ÄÖü", "zaZA"] {
        assert_eq!(to_ascii_lower(text), text.to_ascii_lowercase());
        assert_eq!(to_ascii_upper(text), text.to_ascii_uppercase());
    }
}

#[test]
fn lines_of_texts() {
    for text in ["", "\n", "a", "a\n", "a\r\nb", "a\rb\n\n", "\r\n\r", "x\n\ny\n", "é\n\u{2028}z"] {
        let lines: Vec<String> = split_lines(text).iter().map(|line| line.iter().collect()).collect();
        let expected: Vec<String> = text.lines().map(str::to_owned).collect();
        assert_eq!(lines, expected, "{text:?}");
    }
}

#[test]
fn decimal_numbers() {
    for n in [0, 7, 10, 99, 1234567890, u64::MAX] {
        let mut text = "n".to_owned();
        push_decimal(&mut text, n);
        assert_eq!(text, format!("n{n}"));
    }
}

#[test]
fn well_formed_utf8_is_text() {
    for bytes in [
        &b"abc"[..],
        &[0xc3, 0xa9],
        &[0xff],
        &[0xc0, 0x80],
        &[0xed, 0xa0, 0x80],
        &[0xf0, 0x9f, 0x98, 0x80],
        &[],
    ] {
        assert_eq!(parse_utf8(bytes), std::str::from_utf8(bytes).ok().map(str::to_owned));
    }
}

#[test]
fn parts_of_file_names() {
    for name in ["a.png", ".hidden", ".hidden.txt", "a.tar.gz", "plain", "dot.", "é.ÜX", "..."] {
        let path = std::path::Path::new(name);
        let expected = path.file_name().and_then(|part| part.to_str());
        assert_eq!(file(name).file_name().as_deref(), expected, "{name}");
        let expected = path.file_stem().and_then(|part| part.to_str());
        assert_eq!(file(name).file_stem().as_deref(), expected, "{name}");
        let expected = path.extension().and_then(|part| part.to_str());
        assert_eq!(file(name).extension().as_deref(), expected, "{name}");
    }
    let strange = named(b"\xff\xfe.Png");
    assert_eq!(strange.file_name(), None);
    assert_eq!(strange.file_stem(), None);
    assert_eq!(strange.lower_extension(), Some("png".to_owned()));
    let root = FilePath {
        text: "/".to_owned(),
        parent: None,
        components: vec![PathComponent { kind: ComponentKind::RootDir, name: b"/".to_vec() }],
    };
    assert_eq!(root.file_name(), None);
}

#[test]
fn joining_and_containing() {
    let dir = file("dir");
    let inner = dir.join("a.b", '/');
    assert_eq!(inner.text, "dir/a.b");
    assert_eq!(inner.parent.as_deref(), Some("dir"));
    assert_eq!(inner.file_stem().as_deref(), Some("a"));
    assert_eq!(inner.extension().as_deref(), Some("b"));
    assert_eq!(dir.join("x", '\\').text, "dir\\x");
    assert_eq!(file("dir/").join("x", '/').text, "dir/x");
    assert_eq!(file("").join("x", '/').text, "x");
    assert!(inner.starts_with(&dir));
    assert!(!dir.starts_with(&inner));
    assert!(!file("directory").starts_with(&dir));
    assert!(inner == dir.join("a.b", '\\'));
    assert!(inner != dir);
}

#[test]
fn kinds_by_name() {
    for name in ["a.png", "a.JPG", "a.jpeg", "a.gif", "a.webp", "a.bmp", "a.tif", "a.TIFF"] {
        assert!(is_supported_image_file(&file(name)), "{name}");
    }
    for name in ["a.svg", "png", "a.png.txt", ".png"] {
        assert!(!is_supported_image_file(&file(name)), "{name}");
    }
    assert!(is_png_file(&file("x.PnG")) && !is_png_file(&file("x.gif")));
    assert!(is_gif_file(&file("x.GIF")) && !is_gif_file(&file("x.png")));
    assert!(is_text_file(&file("x.jpg")) && !is_text_file(&file("x.png")));
    for name in [
        "Dockerfile", "Makefile", "Justfile", "Procfile", "CMakeLists.txt", ".env", ".gitignore",
        ".gitattributes", "A.TOML", "x.Md",
    ] {
        assert!(looks_like_supported_text_path(&file(name)), "{name}");
    }
    for extension in [
        "txt", "md", "markdown", "rst", "log", "csv", "tsv", "json", "jsonc", "yaml", "yml",
        "toml", "ini", "cfg", "conf", "xml", "html", "htm", "css", "scss", "less", "js", "jsx",
        "ts", "tsx", "mjs", "cjs", "py", "rs", "c", "h", "cpp", "cc", "cxx", "hpp", "java", "kt",
        "kts", "swift", "go", "rb", "php", "sh", "bash", "zsh", "fish", "sql", "graphql", "gql",
        "proto", "env", "gitignore",
    ] {
        assert!(looks_like_supported_text_path(&file(&format!("a.{extension}"))), "{extension}");
    }
    for name in ["a.exe", "photo", "a.png", "archive.tar", "makefile", "LICENSE", "txt"] {
        assert!(!looks_like_supported_text_path(&file(name)), "{name}");
    }
    assert!(looks_like_text_bytes(&b"text\n".to_vec()));
    assert!(!looks_like_text_bytes(&vec![0x61, 0]));
    assert!(!looks_like_text_bytes(&vec![0xff]));
}

#[test]
fn extensions() {
    assert_eq!(normalized_text_extension(&file("a.RS")), "rs");
    assert_eq!(normalized_text_extension(&file("Makefile")), "text");
    assert_eq!(normalized_text_extension(&file("a.")), "text");
    assert_eq!(persisted_text_extension(&file("a.Py")), "py");
    assert_eq!(normalized_file_extension_from_name(&file("x.Zip")), "zip");
    assert_eq!(normalized_file_extension_from_name(&file("plain")), "file");
    assert_eq!(normalized_file_extension(&file("a.ISO"), &file("whatever")), "iso");
    assert_eq!(normalized_file_extension(&file("noext"), &file("noext")), "file");
    assert_eq!(image_file_extension(&file("a.JPEG")), "jpeg");
    assert_eq!(image_file_extension(&file("a")), "png");
}

#[test]
fn a_shown_name_is_taken_as_a_path() {
    let of = |name: &str| normalized_file_extension_from_name(&written(name));
    assert_eq!(of("a.b/c"), "file");
    assert_eq!(of("a.b/c.D"), "d");
    assert_eq!(of("a.b/"), "b");
    assert_eq!(of("a.b/./."), "b");
    assert_eq!(of("a.b/.."), "file");
    assert_eq!(of(".."), "file");
    assert_eq!(of("."), "file");
    assert_eq!(of("/"), "file");
    assert_eq!(of(""), "file");
    assert_eq!(of(".b"), "file");
    assert_eq!(of("a."), "file");
    assert_eq!(normalized_file_extension(&file("noext"), &written("a.b/c")), "file");
    assert_eq!(normalized_file_extension(&file("noext"), &written("a/b.C")), "c");

    // A name that starts with a dot, behind a drive.
    let mut behind_drive = prefixed("C:");
    behind_drive.components.push(PathComponent {
        kind: ComponentKind::Normal,
        name: b".txt".to_vec(),
    });
    assert_eq!(normalized_file_extension_from_name(&behind_drive), "file");
}

#[test]
fn a_file_name_on_its_own_is_a_path() {
    for name in ["a.b", ".b", "a", ".", "..", "a."] {
        let path = FilePath::of_name(name);
        let expected = written(name);
        assert_eq!(path.text, name);
        assert_eq!(path.parent, expected.parent, "{name}");
        assert!(path == expected, "{name}");
    }
}

#[test]
fn joining_to_a_prefix() {
    let drive = prefixed("C:");
    let joined = drive.join("x", '\\');
    assert_eq!(joined.text, "C:x");
    assert_eq!(joined.components.len(), 2);

    let mut rooted = prefixed("C:");
    rooted.text = "C:\\".to_owned();
    rooted.components.push(PathComponent { kind: ComponentKind::RootDir, name: b"\\".to_vec() });
    assert_eq!(rooted.join("x", '\\').text, "C:\\x");

    let verbatim = prefixed("\\\\?\\C:");
    let joined = verbatim.join("x", '\\');
    assert_eq!(joined.text, "\\\\?\\C:\\x");
    assert_eq!(joined.components.len(), 3);
    assert_eq!(joined.components[1].kind, ComponentKind::RootDir);

    let mut slashed = prefixed("\\\\?\\C:");
    slashed.text = "\\\\?\\C:\\a/".to_owned();
    slashed.components.push(PathComponent { kind: ComponentKind::RootDir, name: b"\\".to_vec() });
    slashed.components.push(PathComponent { kind: ComponentKind::Normal, name: b"a/".to_vec() });
    assert_eq!(slashed.join("x", '\\').text, "\\\\?\\C:\\a/\\x");
}

#[test]
fn a_shown_line_is_shown_as_itself() {
    let long = format!("{}\t tail", "word ".repeat(20));
    for line in ["", "  \t ", "a\tb  ", "\tindented", &"x".repeat(88), &"x".repeat(89), &long] {
        let shown = compact_text_preview_line(&chars(line));
        assert_eq!(compact_text_preview_line(&chars(&shown)), shown);
        assert!(!shown.contains('\t'));
        assert!(shown.chars().count() <= 91);
        assert_eq!(shown.is_empty(), line.trim().is_empty());
    }
}

#[test]
fn the_kind_of_a_path_depends_on_its_name_in_any_case() {
    for name in ["a.txt", "a.TXT", "CMakeLists.Txt", "a.gitIgnore", "b.Rs"] {
        assert!(looks_like_supported_text_path(&file(name)), "{name}");
        assert!(!is_supported_image_file(&file(name)), "{name}");
    }
    for name in ["a.png", "a.PNG", "a.Jpeg", "a.TIFF"] {
        assert!(is_supported_image_file(&file(name)), "{name}");
        assert!(!looks_like_supported_text_path(&file(name)), "{name}");
    }
    assert!(!looks_like_supported_text_path(&file("makefile")));
    assert!(!looks_like_supported_text_path(&file(".ENV")));
}

#[test]
fn display_names() {
    assert_eq!(normalize_display_name("  a b \n"), "a b");
    assert_eq!(normalize_display_name(" \t "), "Item");
    assert_eq!(short_display_id("0123abcdef"), "0123ABCD");
    assert_eq!(short_display_id("ab"), "AB");
    assert_eq!(short_display_id("straße-x"), "STRASSE-X");
    assert_eq!(load_display_name(&Some(" x ".to_owned()), "h"), "x");
    assert_eq!(load_display_name(&Some(String::new()), "h"), "Item");
    assert_eq!(load_display_name(&None, "ref-0123456789"), "Item REF-0123");
}

fn chars(text: &str) -> Vec<char> {
    text.chars().collect()
}

#[test]
fn excerpts_of_texts() {
    assert_eq!(build_text_preview(""), "Empty file");
    assert_eq!(build_text_preview(" \n\t\n"), "Empty file");
    assert_eq!(build_text_preview("a\n\n b\t\n\tc"), "a\n b\n    c");
    let many: Vec<String> = (0..20).map(|n| format!("line {n}")).collect();
    assert_eq!(build_text_preview(&many.join("\n")), many[..8].join("\n"));
    let exact = "x".repeat(88);
    assert_eq!(compact_text_preview_line(&chars(&exact)), exact);
    assert_eq!(compact_text_preview_line(&chars(&"x".repeat(89))), format!("{exact}..."));
    assert_eq!(compact_text_preview_line(&chars("a\tb  ")), "a    b");
    let preview = build_text_preview(&vec!["y".repeat(200); 30].join("\n"));
    assert_eq!(preview.lines().count(), 8);
    assert!(preview.lines().all(|line| line.chars().count() == 91));
}
