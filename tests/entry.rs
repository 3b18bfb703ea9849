use dungeon_mark::entry::{JournalEntry, Section, SectionLevel};

fn section(title: &str, level: SectionLevel, body: &str, sections: Vec<Section>) -> Section {
    Section {
        title: String::from(title),
        level,
        body: String::from(body),
        metadata: Vec::new(),
        sections,
    }
}

#[test]
fn entry_parses_top_level_body() {
    let input = "Top level body.\nWith multiple lines.\n\nIncluding heard breaks.";
    let entry = JournalEntry {
        body: Some(String::from(input)),
        ..Default::default()
    };
    let entry = entry.parse().expect("should parse");

    let expected = Some(String::from(input));

    assert_eq!(expected, entry.body);
}

#[test]
fn entry_parses_top_level_sections() {
    let input = "# First Top Level
# Second Top Level";
    let entry = JournalEntry {
        body: Some(String::from(input)),
        ..Default::default()
    };
    let entry = entry.parse().expect("should parse");

    let expected = vec![
        Section {
            title: String::from("First Top Level"),
            level: SectionLevel::H1,
            body: String::from(""),
            metadata: Vec::new(),
            sections: Vec::new(),
        },
        Section {
            title: String::from("Second Top Level"),
            level: SectionLevel::H1,
            body: String::from(""),
            metadata: Vec::new(),
            sections: Vec::new(),
        },
    ];

    assert_eq!(expected, entry.sections);
}

#[test]
fn entry_parses_top_level_sections_where_sections_have_reverse_ordering() {
    let input = "### First Top Level
## Second Top Level
# Third Top Level";
    let entry = JournalEntry {
        body: Some(String::from(input)),
        ..Default::default()
    };
    let entry = entry.parse().expect("should parse");

    let expected = vec![
        Section {
            title: String::from("First Top Level"),
            level: SectionLevel::H3,
            body: String::from(""),
            metadata: Vec::new(),
            sections: Vec::new(),
        },
        Section {
            title: String::from("Second Top Level"),
            level: SectionLevel::H2,
            body: String::from(""),
            metadata: Vec::new(),
            sections: Vec::new(),
        },
        Section {
            title: String::from("Third Top Level"),
            level: SectionLevel::H1,
            body: String::from(""),
            metadata: Vec::new(),
            sections: Vec::new(),
        },
    ];

    assert_eq!(expected, entry.sections);
}

#[test]
fn entry_parses_top_level_sections_where_sections_have_h2_level() {
    let input = "## First Top Level
## Second Top Level
## Third Top Level";
    let entry = JournalEntry {
        body: Some(String::from(input)),
        ..Default::default()
    };
    let entry = entry.parse().expect("should parse");

    let expected = vec![
        Section {
            title: String::from("First Top Level"),
            level: SectionLevel::H2,
            body: String::from(""),
            metadata: Vec::new(),
            sections: Vec::new(),
        },
        Section {
            title: String::from("Second Top Level"),
            level: SectionLevel::H2,
            body: String::from(""),
            metadata: Vec::new(),
            sections: Vec::new(),
        },
        Section {
            title: String::from("Third Top Level"),
            level: SectionLevel::H2,
            body: String::from(""),
            metadata: Vec::new(),
            sections: Vec::new(),
        },
    ];

    assert_eq!(expected, entry.sections);
}

#[test]
fn entry_parses_top_level_sections_with_nested_sections() {
    let input = "# First Top Level
Test
## First Nested
Test
### Inner Nested
Test
## Second Nested
Test
# Second Top Level
Test";
    let entry = JournalEntry {
        body: Some(String::from(input)),
        ..Default::default()
    };
    let entry = entry.parse().expect("should parse");

    let expected = vec![
        Section {
            title: String::from("First Top Level"),
            level: SectionLevel::H1,
            body: String::from("Test"),
            metadata: Vec::new(),
            sections: vec![
                Section {
                    title: String::from("First Nested"),
                    level: SectionLevel::H2,
                    body: String::from("Test"),
                    metadata: Vec::new(),
                    sections: vec![Section {
                        title: String::from("Inner Nested"),
                        level: SectionLevel::H3,
                        body: String::from("Test"),
                        metadata: Vec::new(),
                        sections: Vec::new(),
                    }],
                },
                Section {
                    title: String::from("Second Nested"),
                    level: SectionLevel::H2,
                    body: String::from("Test"),
                    metadata: Vec::new(),
                    sections: Vec::new(),
                },
            ],
        },
        Section {
            title: String::from("Second Top Level"),
            level: SectionLevel::H1,
            body: String::from("Test"),
            metadata: Vec::new(),
            sections: Vec::new(),
        },
    ];

    assert_eq!(expected, entry.sections);
}

#[test]
fn entry_without_body_is_left_alone() {
    let entry = JournalEntry {
        title: String::from("Kept"),
        level: 2,
        ..Default::default()
    };
    let parsed = entry.parse().expect("should parse");
    assert_eq!(parsed.title, "Kept");
    assert_eq!(parsed.body, None);
    assert!(parsed.sections.is_empty());
    assert_eq!(parsed.level, 2);
}

#[test]
fn entry_empty_body_becomes_none() {
    let entry = JournalEntry {
        body: Some(String::new()),
        ..Default::default()
    };
    let parsed = entry.parse().expect("should parse");
    assert_eq!(parsed.body, None);
    assert!(parsed.sections.is_empty());
}

#[test]
fn entry_preamble_before_first_heading_is_kept() {
    let entry = JournalEntry {
        body: Some(String::from("Intro\n# Heading\nText")),
        ..Default::default()
    };
    let parsed = entry.parse().expect("should parse");
    assert_eq!(parsed.body, Some(String::from("Intro")));
    assert_eq!(parsed.sections, vec![section("Heading", SectionLevel::H1, "Text", Vec::new())]);
}

#[test]
fn entry_scrambled_levels_nest_only_deeper_headings() {
    let input = "## A\n#### B\n### C\n# D\n###### E\n##### F";
    let entry = JournalEntry {
        body: Some(String::from(input)),
        ..Default::default()
    };
    let parsed = entry.parse().expect("should parse");
    let (preamble, sections) = (parsed.body, parsed.sections);
    assert_eq!(preamble, None);
    let expected = vec![
        section(
            "A",
            SectionLevel::H2,
            "",
            vec![
                section("B", SectionLevel::H4, "", Vec::new()),
                section("C", SectionLevel::H3, "", Vec::new()),
            ],
        ),
        section(
            "D",
            SectionLevel::H1,
            "",
            vec![
                section("E", SectionLevel::H6, "", Vec::new()),
                section("F", SectionLevel::H5, "", Vec::new()),
            ],
        ),
    ];
    assert_eq!(sections, expected);
}

#[test]
fn entry_parse_appends_to_existing_sections() {
    let entry = JournalEntry {
        body: Some(String::from("# New")),
        sections: vec![section("Old", SectionLevel::H2, "", Vec::new())],
        ..Default::default()
    };
    let parsed = entry.parse().expect("should parse");
    assert_eq!(
        parsed.sections,
        vec![
            section("Old", SectionLevel::H2, "", Vec::new()),
            section("New", SectionLevel::H1, "", Vec::new()),
        ]
    );
}

#[test]
fn entry_level_numbers_map_to_levels() {
    assert_eq!(SectionLevel::from_number(1), SectionLevel::H1);
    assert_eq!(SectionLevel::from_number(4), SectionLevel::H4);
    assert_eq!(SectionLevel::from_number(6), SectionLevel::H6);
    assert_eq!(SectionLevel::from_number(9), SectionLevel::H6);
}

#[test]
fn entry_for_each_mut_visits_children_before_parents() {
    let entry = JournalEntry {
        sections: vec![section(
            "Parent",
            SectionLevel::H1,
            "",
            vec![section("Child", SectionLevel::H2, "", Vec::new())],
        )],
        ..Default::default()
    };
    let entry = entry.for_each_mut(|mut s: Section| {
        let seen: Vec<String> = s.sections.iter().map(|c| c.title.clone()).collect();
        s.body = format!("{}:{}", s.title, seen.join(","));
        s
    });
    assert_eq!(entry.sections[0].body, "Parent:Child");
    assert_eq!(entry.sections[0].sections[0].body, "Child:");
}

#[test]
fn entry_try_for_each_mut_stops_at_first_error() {
    let entry = JournalEntry {
        sections: vec![
            section("Good", SectionLevel::H1, "", Vec::new()),
            section("Bad", SectionLevel::H1, "", Vec::new()),
        ],
        ..Default::default()
    };
    let result = entry.try_for_each_mut(|s: Section| {
        if s.title == "Bad" {
            Err(format!("failed on {}", s.title))
        } else {
            Ok(s)
        }
    });
    assert_eq!(result.err(), Some(String::from("failed on Bad")));

    let entry = JournalEntry {
        sections: vec![section("Good", SectionLevel::H1, "", Vec::new())],
        ..Default::default()
    };
    let entry = entry
        .try_for_each_mut(|mut s: Section| -> Result<Section, String> {
            s.body = String::from("visited");
            Ok(s)
        })
        .expect("should succeed");
    assert_eq!(entry.sections[0].body, "visited");
}
