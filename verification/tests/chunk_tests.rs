use hypomnema::chunk::{
    chunk_file, diagnose_chunk, hex_encode, render_path, split_frontmatter, Chunk,
    CHUNK_HARD_CAP_BYTES, CHUNK_TARGET_BYTES,
};
use sha2::{Digest, Sha256};

fn assert_indices_contiguous(chunks: &[Chunk]) {
    for (i, c) in chunks.iter().enumerate() {
        assert_eq!(
            c.chunk_index, i as u32,
            "chunk {i} has chunk_index={}, expected {}",
            c.chunk_index, i
        );
    }
}

fn expected_hash(s: &str) -> String {
    let mut hasher = Sha256::new();
    hasher.update(s.as_bytes());
    let bytes = hasher.finalize();
    format!("sha256:{}", hex_encode(&bytes))
}

#[test]
fn empty_file_produces_zero_chunks() {
    let chunks = chunk_file("");
    assert!(chunks.is_empty(), "expected 0 chunks, got {chunks:?}");
}

#[test]
fn frontmatter_only_no_body_produces_zero_chunks() {
    let input = "---\ntitle: Foo\ntags: [a, b]\n---\n";
    let chunks = chunk_file(input);
    assert!(chunks.is_empty(), "expected 0 chunks, got {chunks:?}");
}

#[test]
fn no_headings_produces_one_chunk_for_whole_body() {
    let input = "Just a paragraph of prose with no headings at all.\n\nAnd a second paragraph.\n";
    let chunks = chunk_file(input);
    assert_eq!(chunks.len(), 1);
    assert_eq!(chunks[0].chunk_index, 0);
    assert_eq!(chunks[0].heading_path, "");
    assert_eq!(chunks[0].start_byte, 0);
    assert_eq!(chunks[0].content, input);
}

#[test]
fn single_h1_at_top_produces_one_chunk() {
    let input = "# Title\n\nSome body text under the title.\n";
    let chunks = chunk_file(input);
    assert_eq!(chunks.len(), 1);
    assert_eq!(chunks[0].heading_path, "Title");
    assert!(chunks[0].content.starts_with("# Title"));
    assert!(chunks[0].content.contains("Some body text"));
}

#[test]
fn h1_h2_h1_sequence_produces_three_chunks_with_correct_paths() {
    let input =
        "# Alpha\n\nFirst section.\n\n## Beta\n\nSecond section.\n\n# Gamma\n\nThird section.\n";
    let chunks = chunk_file(input);
    assert_eq!(chunks.len(), 3);
    assert_eq!(chunks[0].heading_path, "Alpha");
    assert_eq!(chunks[1].heading_path, "Alpha/Beta");
    assert_eq!(chunks[2].heading_path, "Gamma");
    assert_indices_contiguous(&chunks);
}

#[test]
fn content_exceeding_max_under_one_heading_breaks_at_paragraph_boundary() {
    let mut body = String::from("# Long\n\n");
    for i in 0..250 {
        body.push_str(&format!("Paragraph number {i:03} with some words.\n\n"));
    }
    let chunks = chunk_file(&body);
    assert!(chunks.len() >= 2, "expected multiple chunks, got {}", chunks.len());
    for c in &chunks {
        assert_eq!(c.heading_path, "Long");
        assert!(
            c.content.len() <= CHUNK_HARD_CAP_BYTES + 200,
            "chunk too large: {} bytes",
            c.content.len()
        );
        assert!(
            c.content.ends_with("\n\n") || c.content.ends_with('\n'),
            "chunk does not end at a clean boundary: {:?}",
            &c.content[c.content.len().saturating_sub(20)..]
        );
    }
}

#[test]
fn h4_under_h2_stays_in_h2_chunk() {
    let input = "# A\n\n## B\n\nIntro under B.\n\n#### D\n\nMore under B (via D).\n";
    let chunks = chunk_file(input);
    assert_eq!(chunks.len(), 2, "got {chunks:#?}");
    assert_eq!(chunks[0].heading_path, "A");
    assert_eq!(chunks[1].heading_path, "A/B");
    assert!(chunks[1].content.contains("#### D"));
    assert!(chunks[1].content.contains("More under B"));
}

#[test]
fn thematic_break_splits_sections_under_same_heading() {
    let input = "# A\n\n## B\n\nFirst direction.\n\n---\n\nDifferent direction.\n";
    let chunks = chunk_file(input);
    assert_eq!(chunks.len(), 3, "got {chunks:#?}");
    assert_eq!(chunks[0].heading_path, "A");
    assert_eq!(chunks[1].heading_path, "A/B");
    assert_eq!(chunks[2].heading_path, "A/B");
    assert_eq!(chunks[1].boundary_end, "thematic_break");
    assert_eq!(chunks[2].boundary_start, "thematic_break");
    assert!(chunks[1].content.contains("First direction"));
    assert!(chunks[2].content.contains("Different direction"));
    assert!(!chunks[1].content.contains("---"));
    assert!(!chunks[2].content.contains("---"));
    assert_indices_contiguous(&chunks);
}

#[test]
fn thematic_break_immediately_before_heading_keeps_heading_boundary() {
    let input = "# Doc\n\n## A\n\nFirst.\n\n---\n\n## B\n\nSecond.\n";
    let chunks = chunk_file(input);
    let a = chunks
        .iter()
        .find(|c| c.content.contains("First"))
        .expect("chunk with First");
    let b = chunks
        .iter()
        .find(|c| c.content.contains("Second"))
        .expect("chunk with Second");
    assert_eq!(a.boundary_end, "thematic_break");
    assert_eq!(b.boundary_start, "heading:h2");
}

#[test]
fn frontmatter_delimiter_is_not_body_thematic_break() {
    let input = "---\ntitle: A\n---\n# A\n\nBody.\n";
    let chunks = chunk_file(input);
    assert_eq!(chunks.len(), 1);
    assert_eq!(chunks[0].heading_path, "A");
    assert_eq!(chunks[0].boundary_start, "heading:h1");
    assert!(!chunks[0].content.contains("title: A"));
}

#[test]
fn code_blocks_spanning_many_lines_preserved_as_unit() {
    let mut input = String::from("# Code\n\n```\n");
    for i in 0..200 {
        input.push_str(&format!("line {i:03} content content content\n"));
    }
    input.push_str("```\n");
    let chunks = chunk_file(&input);
    let code_chunks: Vec<_> = chunks.iter().filter(|c| c.content.contains("```")).collect();
    assert_eq!(
        code_chunks.len(),
        1,
        "code fences must appear in exactly one chunk; got {}: {:#?}",
        code_chunks.len(),
        code_chunks
    );
    let code_chunk = code_chunks[0];
    let opens = code_chunk.content.matches("```").count();
    assert_eq!(opens, 2, "both code fences must be in the same chunk");
    assert!(code_chunk.content.contains("line 000"));
    assert!(code_chunk.content.contains("line 199"));
}

#[test]
fn h3_with_no_parent_h2_uses_documented_orphan_behavior() {
    let input = "# Setup\n\nSome intro.\n\n### Prereqs\n\nDetails.\n";
    let chunks = chunk_file(input);
    assert_eq!(chunks.len(), 2);
    assert_eq!(chunks[0].heading_path, "Setup");
    assert_eq!(chunks[1].heading_path, "Setup//Prereqs");
}

#[test]
fn chunk_index_is_zero_based_and_contiguous() {
    let input = "# A\n\nx\n\n## B\n\ny\n\n# C\n\nz\n";
    let chunks = chunk_file(input);
    assert_eq!(chunks.len(), 3);
    assert_indices_contiguous(&chunks);
    assert_eq!(chunks[0].chunk_index, 0);
    assert_eq!(chunks[1].chunk_index, 1);
    assert_eq!(chunks[2].chunk_index, 2);
}

#[test]
fn byte_offsets_account_for_frontmatter() {
    let fm = "title: hi\ntags: [a]";
    let body = "# Heading\n\nbody.\n";
    let input = format!("---\n{fm}\n---\n{body}");
    let body_offset = 4 + fm.len() + 5;
    let chunks = chunk_file(&input);
    assert_eq!(chunks.len(), 1);
    let c = &chunks[0];
    assert_eq!(
        c.start_byte, body_offset,
        "start_byte should be at offset {body_offset} (after frontmatter), got {}",
        c.start_byte
    );
    assert!(c.end_byte > c.start_byte);
    assert_eq!(&input[c.start_byte..c.end_byte], c.content);
}

#[test]
fn orphan_h3_uses_documented_behavior() {
    let input = "### Lone\n\nbody.\n";
    let chunks = chunk_file(input);
    assert_eq!(chunks.len(), 1);
    assert_eq!(chunks[0].heading_path, "//Lone");
}

#[test]
fn code_block_not_split_mid_block() {
    let mut input = String::from("```\n");
    for i in 0..150 {
        input.push_str(&format!("line {i:03} aaaa bbbb cccc dddd eeee\n"));
    }
    input.push_str("```\n");
    assert!(
        input.len() > CHUNK_TARGET_BYTES,
        "test fixture must exceed CHUNK_TARGET_BYTES to be meaningful"
    );
    let chunks = chunk_file(&input);
    assert_eq!(chunks.len(), 1, "code block was split across {} chunks", chunks.len());
    let c = &chunks[0];
    let opens = c.content.matches("```").count();
    assert_eq!(opens, 2, "both code fences must be in the same chunk");
    assert!(c.content.contains("line 000"));
    assert!(c.content.contains("line 149"));
    assert_eq!(c.content_hash, expected_hash(&c.content));
}

#[test]
fn fenced_code_is_kept_and_classified() {
    let input = "# A\n\n```toml\n[tool]\nname = \"hmn\"\n```\n\nProse.\n";
    let chunks = chunk_file(input);
    assert_eq!(chunks.len(), 1);
    assert!(chunks[0].content.contains("```toml"));
    let diagnostics = diagnose_chunk(&chunks[0].content);
    assert_eq!(diagnostics.fenced_code_blocks, 1);
    assert!(diagnostics.fenced_code_bytes > 0);
    assert_eq!(diagnostics.fenced_code_languages, vec!["toml"]);
}

#[test]
fn diagnose_ignores_indented_code_block_markers() {
    let content = "Prose paragraph.\n\n    ---\n\n    ```rust\n    let x = 1;\n    ```\n";
    let d = diagnose_chunk(content);
    assert_eq!(d.thematic_breaks, 0, "indented --- is code, not a break");
    assert_eq!(d.fenced_code_blocks, 0, "indented ``` is code, not a fence");
    assert_eq!(diagnose_chunk("a\n\n---\n\nb\n").thematic_breaks, 1);
    assert_eq!(diagnose_chunk("   ```rust\n   code\n   ```\n").fenced_code_blocks, 1);
}

#[test]
fn split_frontmatter_recognizes_frontmatter() {
    let (fm, body) = split_frontmatter("---\nfoo: 1\n---\nrest\n");
    assert_eq!(fm, Some("foo: 1"));
    assert_eq!(body, "rest\n");
}

#[test]
fn split_frontmatter_returns_none_when_absent() {
    let (fm, body) = split_frontmatter("no fm here\n");
    assert!(fm.is_none());
    assert_eq!(body, "no fm here\n");
}

#[test]
fn split_frontmatter_returns_none_when_unterminated() {
    let input = "---\nstart but no end\n";
    let (fm, body) = split_frontmatter(input);
    assert!(fm.is_none());
    assert_eq!(body, input);
}

#[test]
fn render_path_handles_trailing_empties() {
    assert_eq!(render_path(&["A".into(), String::new(), String::new()]), "A");
    assert_eq!(render_path(&["A".into(), "B".into(), String::new()]), "A/B");
    assert_eq!(render_path(&["A".into(), "B".into(), "C".into()]), "A/B/C");
    assert_eq!(render_path(&["A".into(), String::new(), "C".into()]), "A//C");
    assert_eq!(render_path(&[String::new(), String::new(), "C".into()]), "//C");
    assert_eq!(render_path(&[String::new(), String::new(), String::new()]), "");
}

// Properties the contracts state, checked on concrete files.

#[test]
fn every_chunk_is_the_file_slice_it_names() {
    let input = "---\ntitle: x\n---\n# Über\n\nÆble.\n\n## Zwei\n\nmore — text\n\n---\n\nend\n";
    let chunks = chunk_file(input);
    assert!(!chunks.is_empty());
    for c in &chunks {
        assert_eq!(&input[c.start_byte..c.end_byte], c.content);
        assert_eq!(c.content_hash, expected_hash(&c.content));
    }
    assert_indices_contiguous(&chunks);
}

#[test]
fn chunks_are_ordered_and_disjoint() {
    let input = "# A\n\none\n\n# B\n\ntwo\n\n# C\n\nthree\n";
    let chunks = chunk_file(input);
    for w in chunks.windows(2) {
        assert!(w[0].end_byte <= w[1].start_byte);
    }
}

#[test]
fn diagnose_counts_unclosed_fence_to_end_and_languages_once() {
    let content = "```rust\na\n```\n```rust\nb\n```\n~~~py\nc\n";
    let d = diagnose_chunk(content);
    assert_eq!(d.fenced_code_blocks, 3);
    assert_eq!(d.fenced_code_languages, vec!["rust", "py"]);
    assert_eq!(d.fenced_code_bytes, content.len());
    assert!(d.code_heavy);
    let d2 = diagnose_chunk("");
    assert_eq!(d2.fenced_code_blocks, 0);
    assert!(!d2.code_heavy);
}

#[test]
fn diagnose_thematic_break_forms() {
    assert_eq!(diagnose_chunk("* * *\n").thematic_breaks, 1);
    assert_eq!(diagnose_chunk("___\n").thematic_breaks, 1);
    assert_eq!(diagnose_chunk("--\n").thematic_breaks, 0);
    assert_eq!(diagnose_chunk("-*-\n").thematic_breaks, 0);
    assert_eq!(diagnose_chunk("\t---\n").thematic_breaks, 0);
}
