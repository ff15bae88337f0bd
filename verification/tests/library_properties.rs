use poppins::bpe::{
    BPETokenizer, BPETokenWriter, BPETokenCache, PairCounts, bpe_get_special_tokens, bpe_train,
    bpe_infer_tokenize, bpe_create_pair_counts_map, split_into_tokens, apply_merges_fast,
    get_bpe_cache_tokens, create_bpe_cache, bpe_create_sequence, tokenizer_json, bpe_train_tokenize,
};
use poppins::sample::{
    Sample, Samples, SamplePromptEnum, SampleAiEnum, SampleLineBreak, SampleCode, SampleLanguage,
    SampleIndent, sample_place_into_vecs, sample_place_with_index, sample_create_via_ids,
    sample_create_via_tags,
};
use poppins::tag::{TagWriter, tag_write_ai_content, tag_get_byte_length_ai_item, tag_get_byte_offset_last_ai_start};
use poppins::config::{config_get_compression_dim, config_get_rope_dim, config_get_total_params, config_get_total_params_checked, config_proven_fundamentals};
use poppins::device::Device;
use poppins::cli::{cli_validate_device, cli_validate_model_name, device_from_lowercase};
use poppins::train_xml::{
    IdMap, TrainXMLIdMaps, TrainXMLPromptsPrompt, TrainXMLResponsesResponse, TrainXMLSamplesSampleIds,
    TrainXMLSamplesSample, TrainXMLSamplesSampleChildren, TrainXMLSamplesPrompt, TrainXMLLineBreak,
    TrainXMLSystemPromptsSystem, TrainXMLThoughtsThought, TrainXMLSourcesSource, TrainXMLCodeSnippetsCode,
    TrainXML, TrainXMLBeyondScope, TrainXMLBeyondScopeTopic,
};
use poppins::beyond_scope::{BeyondScope, beyond_scope_create_samples};

fn text_sample(prompt: &str, answer: &str) -> Sample {
    Sample {
        system: None,
        thought: None,
        prompt_section: vec![SamplePromptEnum::Text(prompt.to_string())],
        ai_section: vec![SampleAiEnum::Text(answer.to_string())],
    }
}

fn trained() -> BPETokenizer {
    let samples = vec![
        text_sample("hello hello", "hello there"),
        text_sample("hello world", "the world"),
    ];
    bpe_train(&samples, &bpe_get_special_tokens(), &[], 2).unwrap()
}

fn spelled(tokenizer: &BPETokenizer, ids: &[u32]) -> String {
    ids.iter().map(|&id| tokenizer.vocab[id as usize].clone()).collect::<Vec<_>>().concat()
}

#[test]
fn pair_counts_are_the_adjacent_non_special_pairs() {
    let tokenizer = BPETokenizer { vocab: vec![], merges: vec![], special_token_count: 2, initial_token_count: 2 };
    let counts = bpe_create_pair_counts_map(&tokenizer, &[5, 6, 5, 6, 5, 1, 5, 6]);
    assert_eq!(counts.len(), 2);
    assert_eq!(counts.get(&(5, 6)), Some(&3));
    assert_eq!(counts.get(&(6, 5)), Some(&2));
    assert_eq!(counts.get(&(5, 1)), None);
    assert_eq!(counts.max_entry(), Some((3, 5, 6)));
}

#[test]
fn pair_counts_update_and_greatest_entry() {
    let mut counts = PairCounts::new();
    assert!(counts.is_empty());
    assert_eq!(counts.max_entry(), None);
    counts.increment((1, 2));
    counts.increment((1, 2));
    counts.increment((3, 4));
    counts.increment((0, 9));
    assert_eq!(counts.get(&(1, 2)), Some(&2));
    assert_eq!(counts.max_entry(), Some((2, 1, 2)));
    counts.decrement((1, 2));
    assert_eq!(counts.max_entry(), Some((1, 3, 4)));
    counts.decrement((1, 2));
    counts.decrement((7, 7));
    assert_eq!(counts.get(&(1, 2)), None);
    assert_eq!(counts.len(), 2);
}

#[test]
fn training_appends_joined_merges_after_the_initial_vocabulary() {
    let special = bpe_get_special_tokens();
    let tokenizer = trained();
    assert!(tokenizer.merges.len() > 0);
    assert_eq!(&tokenizer.vocab[..special.len()], &special[..]);
    for (a, b) in tokenizer.merges.iter() {
        let joined = format!("{}{}", a, b);
        assert!(tokenizer.vocab[special.len()..].contains(&joined));
        assert!(tokenizer.vocab[special.len()..].contains(a));
        assert!(tokenizer.vocab[special.len()..].contains(b));
    }
    for (i, token) in tokenizer.vocab.iter().enumerate() {
        assert_eq!(tokenizer.token_to_id(token), Some(i as u32));
    }
    assert!(tokenizer.vocab.contains(&"hello".to_string()));
}

#[test]
fn a_merge_that_gives_a_known_text_reuses_its_id() {
    let special = bpe_get_special_tokens();
    let samples = vec![text_sample("ab ab ab", "ab")];
    let tokenizer = bpe_train(&samples, &special, &["ab".to_string()], 2).unwrap();
    assert!(tokenizer.merges.contains(&("a".to_string(), "b".to_string())));
    assert_eq!(tokenizer.vocab.iter().filter(|t| t.as_str() == "ab").count(), 1);
    let mut sorted = tokenizer.vocab.clone();
    sorted.sort();
    sorted.dedup();
    assert_eq!(sorted.len(), tokenizer.vocab.len());
    let ab = tokenizer.token_to_id("ab").unwrap() as usize;
    assert!(ab < tokenizer.initial_token_count as usize);
}

#[test]
fn special_tokens_are_never_merged() {
    let special = bpe_get_special_tokens();
    let samples = vec![text_sample("ab", "ab"), text_sample("ab ab", "b")];
    let tokenizer = bpe_train(&samples, &special, &[], 1).unwrap();
    assert!(!tokenizer.merges.is_empty());
    for (a, b) in &tokenizer.merges {
        assert!(!special.contains(a), "merged special token {}", a);
        assert!(!special.contains(b), "merged special token {}", b);
    }
}

#[test]
fn a_cache_hit_does_not_consult_the_tokenizer() {
    let tokenizer = trained();
    let mut cache = BPETokenCache::new();
    let ids = get_bpe_cache_tokens(&mut cache, &tokenizer, "hello");
    let broken = BPETokenizer { vocab: vec![], merges: vec![], special_token_count: 5, initial_token_count: 5 };
    assert_eq!(get_bpe_cache_tokens(&mut cache, &broken, "hello"), ids);
}

#[test]
fn checked_parameter_count() {
    assert_eq!(config_get_total_params_checked(10, 4, 0, 1, 1, 1, 1, 1), Some(80));
    assert_eq!(config_get_total_params_checked(usize::MAX, 2, 0, 1, 1, 1, 1, 1), None);
    assert_eq!(config_get_total_params_checked(1, 0, 0, usize::MAX, 2, 0, 0, 0), None);
}

#[test]
fn a_special_tag_splits_tokenizing() {
    let tokenizer = trained();
    let whole = bpe_infer_tokenize(&tokenizer, "hello<prompt>the world");
    let mut parts = bpe_infer_tokenize(&tokenizer, "hello");
    parts.push(tokenizer.token_to_id("<prompt>").unwrap());
    parts.extend(bpe_infer_tokenize(&tokenizer, "the world"));
    assert_eq!(whole, parts);
}

#[test]
fn training_without_a_frequent_pair_makes_no_merge() {
    let samples = vec![text_sample("ab", "cd")];
    let tokenizer = bpe_train(&samples, &bpe_get_special_tokens(), &[], 2).unwrap();
    assert!(tokenizer.merges.is_empty());
    let tokenizer = bpe_train(&samples, &bpe_get_special_tokens(), &[], 1).unwrap();
    assert!(!tokenizer.merges.is_empty());
}

#[test]
fn tokenizing_loses_nothing() {
    let tokenizer = trained();
    for text in ["hello world", "<prompt>hello</prompt> there", "the hello<text>world"] {
        let ids = bpe_infer_tokenize(&tokenizer, text);
        assert!(ids.iter().all(|&id| (id as usize) < tokenizer.vocab.len()));
        assert_eq!(spelled(&tokenizer, &ids), text);
    }
    let ids = bpe_infer_tokenize(&tokenizer, "hello");
    assert_eq!(ids.len(), 1);
}

#[test]
fn splitting_keeps_the_text_and_isolates_special_tokens() {
    let special = vec!["<a>".to_string(), "</a>".to_string()];
    let tokens = split_into_tokens("x<a>y<b>z</a><a", &special);
    assert_eq!(tokens, vec!["x", "<a>", "y<b>z", "</a>", "<a"]);
    assert_eq!(tokens.concat(), "x<a>y<b>z</a><a");
}

#[test]
fn merges_apply_left_to_right_until_nothing_changes() {
    let vocab: Vec<String> = ["a", "b", "ab", "abab"].iter().map(|s| s.to_string()).collect();
    let merges = vec![("a".to_string(), "b".to_string()), ("ab".to_string(), "ab".to_string())];
    assert_eq!(apply_merges_fast("ababa", &merges, &vocab), vec![3, 0]);
    assert_eq!(apply_merges_fast("é", &merges, &vocab), vec![0]);
}

#[test]
fn the_cache_gives_what_tokenizing_gives() {
    let tokenizer = trained();
    let mut cache = BPETokenCache::new();
    let fresh = bpe_infer_tokenize(&tokenizer, "hello world");
    assert_eq!(get_bpe_cache_tokens(&mut cache, &tokenizer, "hello world"), fresh);
    assert_eq!(get_bpe_cache_tokens(&mut cache, &tokenizer, "hello world"), fresh);
    assert_eq!(cache.get("hello world"), Some(fresh));
    let tags = create_bpe_cache(&mut cache, &tokenizer);
    assert_eq!(tags.prompt_open, bpe_infer_tokenize(&tokenizer, "<prompt>"));
    assert_eq!(tags.line_break_double, bpe_infer_tokenize(&tokenizer, "<line-break count=\"2\" />"));
    cache.clear();
    assert!(!cache.contains_key("<prompt>"));
}

#[test]
fn writing_in_pieces_is_writing_at_once() {
    let tokenizer = trained();
    let mut whole = BPETokenWriter::new(Vec::new(), &tokenizer);
    whole.write_all("<prompt>héllo</prompt>".as_bytes());
    let mut parts = BPETokenWriter::new(Vec::new(), &tokenizer);
    parts.write_all(b"<pro");
    parts.write_all("mpt>hé".as_bytes());
    parts.write_all(b"llo</prompt>");
    assert_eq!(whole.into_sequence(), parts.into_sequence());
}

#[test]
fn create_sequence_lists_tags_and_characters() {
    let vocab: Vec<String> = ["<sample>", "</sample>", "<ai>", "</ai>", "<text>", "</text>", "a", "<prompt>", "</prompt>"]
        .iter().map(|s| s.to_string()).collect();
    let tokenizer = BPETokenizer { vocab, merges: vec![], special_token_count: 6, initial_token_count: 6 };
    let sample = Sample {
        system: Some("ignored".to_string()),
        thought: None,
        prompt_section: vec![SamplePromptEnum::Text("ab".to_string())],
        ai_section: vec![SampleAiEnum::Text("a".to_string()), SampleAiEnum::LineBreak(SampleLineBreak { count: 1 })],
    };
    let seq = bpe_create_sequence(&tokenizer, &[sample]);
    assert_eq!(seq, vec![0, 7, 6, 0, 8, 2, 4, 6, 5, 3, 1]);
}

#[test]
fn saved_form_of_a_tokenizer() {
    let tokenizer = BPETokenizer {
        vocab: ["<unknown>", "<sample>", "req", "a", "b", "ab"].iter().map(|s| s.to_string()).collect(),
        merges: vec![("a".to_string(), "b".to_string())],
        special_token_count: 2,
        initial_token_count: 3,
    };
    let json = tokenizer_json(&tokenizer, "1.2.3", "0.1.0", 42);
    assert_eq!(json.merges, vec!["ab".to_string()]);
    assert_eq!(json.special_tokens.ids, vec![0, 1]);
    assert_eq!(json.special_tokens.tokens, vec!["<unknown>".to_string(), "<sample>".to_string()]);
    assert_eq!(json.requested_tokens.ids, vec![2]);
    assert_eq!(json.requested_tokens.count, 1);
    assert_eq!(json.config.vocab_size, 6);
    assert_eq!(json.config.created_at, 42);
    assert_eq!(json.version, "1.2.3");
}

#[test]
fn byte_length_of_an_item_is_what_writing_it_takes() {
    let special = bpe_get_special_tokens();
    let items = vec![
        SampleAiEnum::Text("héllo".to_string()),
        SampleAiEnum::Code(SampleCode { lang: SampleLanguage::Rust, inline: false, indent: SampleIndent::Three, content: "fn".to_string() }),
        SampleAiEnum::LineBreak(SampleLineBreak { count: 2 }),
    ];
    for item in &items {
        let mut buffer = Vec::new();
        tag_write_ai_content(&mut buffer, std::slice::from_ref(item), &special);
        assert_eq!(tag_get_byte_length_ai_item(item, &special), buffer.len());
    }
    let section = vec![items[0].clone(), items[1].clone(), SampleAiEnum::Text("z".to_string())];
    let mut buffer = Vec::new();
    tag_write_ai_content(&mut buffer, &section[..2], &special);
    assert_eq!(
        tag_get_byte_offset_last_ai_start(&section, &special),
        "<ai>".len() + buffer.len() + "<text>".len()
    );
}

#[test]
fn binary_tag_writer_adds_no_whitespace() {
    let mut writer = TagWriter::new(Vec::new(), false, 4);
    writer.indent();
    writer.write_simple_tag_open("ai", &[], true);
    writer.write_text("x");
    writer.write_simple_tag_close("ai", &[], true);
    assert_eq!(writer.into_inner(), b"<ai>x</ai>".to_vec());
}

#[test]
fn config_dimensions_are_aligned() {
    for dim in [1usize, 17, 100, 2047, 2048, 4095, 4096, 10_000] {
        assert_eq!(config_get_compression_dim(dim) % 16, 0);
    }
    for head in [2usize, 7, 8, 9, 127, 128, 129, 1000] {
        let r = config_get_rope_dim(head);
        assert_eq!(r % 8, 0);
        assert!(r >= 8);
        if head >= 8 {
            assert!(r <= head);
        }
    }
    assert_eq!(config_get_compression_dim(5000), 640);
    assert_eq!(config_get_rope_dim(200), 56);
}

#[test]
fn parameter_count_grows_with_compression_and_layers() {
    let small = config_get_total_params(100, 64, 2, 4, 16, 8, 8, 256);
    let larger = config_get_total_params(100, 64, 2, 4, 16, 16, 8, 256);
    let deeper = config_get_total_params(100, 64, 3, 4, 16, 8, 8, 256);
    assert!(small < larger);
    assert!(small <= deeper);
    assert_eq!(config_get_total_params(10, 4, 0, 1, 1, 1, 1, 1), 80);
    let shapes = config_proven_fundamentals();
    assert_eq!(shapes.len(), 14);
    assert!(shapes.windows(2).all(|w| w[0].context_size < w[1].context_size));
}

#[test]
fn device_choice_follows_the_probes() {
    assert_eq!(Device::inject_detect(|| false, || true), Device::Metal);
    assert_eq!(Device::inject_new(Some(Device::Cpu), || false, || false, || Device::Cuda), Ok(Device::Cpu));
    assert_eq!(
        Device::inject_new(Some(Device::Metal), || true, || false, || Device::Cuda),
        Err("❌ Metal requested but not available. Use an Apple Silicon Mac, use '-d cpu' or use '-d cuda'".to_string())
    );
    assert!(Device::cuda_output_is_ok("  NVIDIA A100 \n"));
    assert!(!Device::cuda_output_is_ok(" \t\n"));
    assert!(!Device::metal_output_is_ok("Intel"));
    assert!(Device::metal_output_is_ok("Apple M2"));
    assert_eq!(Device::Cpu.cpu_threads_for(16), 4);
    assert_eq!(Device::Cpu.workers_for(3), 3);
    assert!(Device::Cpu.num_workers() >= 1);
    let threads = Device::Cpu.num_cpu_threads();
    assert!((1..=4).contains(&threads));
}

#[test]
fn device_and_model_names_are_checked() {
    assert_eq!(cli_validate_device("MeTaL"), Ok(Device::Metal));
    assert_eq!(cli_validate_device("gpu"), Err("Invalid device 'gpu'. Must be one of: cuda, metal, cpu".to_string()));
    assert_eq!(device_from_lowercase("cuda", "CUDA"), Ok(Device::Cuda));
    assert_eq!(device_from_lowercase("tpu", "TPU"), Err("Invalid device 'TPU'. Must be one of: cuda, metal, cpu".to_string()));
    assert_eq!(cli_validate_model_name("model_1.a-b"), Ok("model_1.a-b".to_string()));
    assert!(cli_validate_model_name("_x").unwrap_err().starts_with("Invalid model name '_x'."));
    assert_eq!(cli_validate_model_name(""), Err("Model name cannot be empty".to_string()));
    assert!(cli_validate_model_name("é").is_err());
    assert!(cli_validate_model_name("a\n").is_err());
    assert_eq!(cli_validate_model_name("9"), Ok("9".to_string()));
}

#[test]
fn language_and_indent_round_trips() {
    for lang in SampleLanguage::ALL {
        assert_eq!(SampleLanguage::from_str(lang.as_str()), lang);
    }
    for indent in SampleIndent::ALL {
        assert_eq!(SampleIndent::from_u8(indent.as_u8()), Some(indent));
    }
    assert_eq!(SampleIndent::Zero.as_u8(), 0);
}

#[test]
fn placement_puts_each_sample_in_exactly_one_set() {
    let mut samples = Samples { train_samples: vec![], val_samples: vec![] };
    let variants = vec![text_sample("b", "b"), text_sample("c", "c")];
    sample_place_into_vecs(&mut samples, text_sample("a", "a"), Some(variants));
    assert_eq!(samples.val_samples.len(), 1);
    assert_eq!(samples.train_samples.len(), 2);
    let mut seen: Vec<String> = samples.train_samples.iter().chain(samples.val_samples.iter())
        .map(|s| match &s.prompt_section[0] { SamplePromptEnum::Text(t) => t.clone(), _ => String::new() })
        .collect();
    seen.sort();
    assert_eq!(seen, vec!["a", "b", "c"]);

    let mut fixed = Samples { train_samples: vec![], val_samples: vec![] };
    sample_place_with_index(&mut fixed, vec![text_sample("a", "a"), text_sample("b", "b"), text_sample("c", "c")], 1);
    assert_eq!(fixed.val_samples.len(), 1);
    assert!(matches!(&fixed.val_samples[0].prompt_section[0], SamplePromptEnum::Text(t) if t == "b"));
    assert_eq!(fixed.train_samples.len(), 2);

    let mut lone = Samples { train_samples: vec![], val_samples: vec![] };
    sample_place_into_vecs(&mut lone, text_sample("a", "a"), None);
    assert_eq!((lone.train_samples.len(), lone.val_samples.len()), (1, 0));
}

#[test]
fn id_maps_prefer_the_later_entry() {
    let mut map: IdMap<u32> = IdMap::new();
    map.insert("x".to_string(), 1);
    map.insert("y".to_string(), 2);
    map.insert("x".to_string(), 3);
    assert_eq!(map.get("x"), Some(&3));
    assert_eq!(map.get("z"), None);
}

#[test]
fn samples_need_their_prompt_and_an_answer() {
    let prompt = TrainXMLPromptsPrompt { id: "p".to_string(), content: "Q?".to_string() };
    let response = TrainXMLResponsesResponse { id: "r".to_string(), content: "A.".to_string() };
    let mut prompts = IdMap::new();
    prompts.insert("p".to_string(), &prompt);
    let mut responses = IdMap::new();
    responses.insert("r".to_string(), &response);
    let ids: TrainXMLIdMaps = TrainXMLIdMaps {
        system_prompts: IdMap::<&TrainXMLSystemPromptsSystem>::new(),
        prompts,
        thoughts: IdMap::<&TrainXMLThoughtsThought>::new(),
        responses,
        sources: IdMap::<&TrainXMLSourcesSource>::new(),
        code_snippets: IdMap::<&TrainXMLCodeSnippetsCode>::new(),
    };
    let no_answer = TrainXMLSamplesSampleIds {
        system: None, prompt: "p".to_string(), thought: None, response: None, source: None, code: None,
    };
    assert!(sample_create_via_ids(&no_answer, &ids).is_none());
    let answered = TrainXMLSamplesSampleIds { response: Some("r".to_string()), ..no_answer.clone() };
    let sample = sample_create_via_ids(&answered, &ids).unwrap();
    assert!(matches!(&sample.ai_section[0], SampleAiEnum::Text(t) if t == "A."));

    let tags = TrainXMLSamplesSample {
        children: vec![
            TrainXMLSamplesSampleChildren::LineBreak(TrainXMLLineBreak { count: 2 }),
            TrainXMLSamplesSampleChildren::Prompt(TrainXMLSamplesPrompt { id: "missing".to_string() }),
        ],
    };
    assert!(sample_create_via_tags(&tags, &ids).is_none());
}

#[test]
fn beyond_scope_asks_one_question_per_topic() {
    let defaults = BeyondScope::default();
    assert_eq!(defaults.sports.len(), 12);
    assert_eq!(defaults.cars.len(), 6);
    let system = TrainXMLSystemPromptsSystem { id: "s".to_string(), content: "S".to_string() };
    let response = TrainXMLResponsesResponse { id: "r".to_string(), content: "No.".to_string() };
    let mut system_prompts = IdMap::new();
    system_prompts.insert("s".to_string(), &system);
    let mut responses = IdMap::new();
    responses.insert("r".to_string(), &response);
    let ids = TrainXMLIdMaps {
        system_prompts,
        prompts: IdMap::new(),
        thoughts: IdMap::new(),
        responses,
        sources: IdMap::new(),
        code_snippets: IdMap::new(),
    };
    let config = TrainXMLBeyondScope {
        system: "s".to_string(),
        response: "r".to_string(),
        topics: vec![TrainXMLBeyondScopeTopic { value: "chess".to_string(), prefix: "is".to_string() }],
        sports: None, food: None, movies: None, history: None, geography: None,
        politics: Some(true), science: None, health: None, art: None, music: None,
        fashion: None, travel: None, pets: None, cars: Some(true),
    };
    let doc = TrainXML {
        system_prompts: None, prompts: None, responses: None, sources: None,
        code_snippets: None, samples: None, beyond_scope: Some(config),
    };
    let samples = beyond_scope_create_samples(&doc, &ids);
    assert_eq!(samples.len(), 1 + 2 * defaults.politics.len() + defaults.cars.len());
    assert!(matches!(&samples[0].prompt_section[0], SamplePromptEnum::Text(t) if t == "What is chess?"));
    assert_eq!(samples[0].system, Some("S".to_string()));
}

#[test]
fn the_training_sequence_spells_the_samples() {
    let special = bpe_get_special_tokens();
    let mut vocab = special.clone();
    for c in " abcdefghijklmnopqrstuvwxyz.?!".chars() {
        vocab.push(c.to_string());
    }
    let n = special.len() as u32;
    let tokenizer = BPETokenizer { vocab, merges: vec![], special_token_count: n, initial_token_count: n };
    let sample = Sample {
        system: Some("be nice".to_string()),
        thought: None,
        prompt_section: vec![SamplePromptEnum::Text("hi?".to_string())],
        ai_section: vec![
            SampleAiEnum::Text("hello.".to_string()),
            SampleAiEnum::LineBreak(SampleLineBreak { count: 2 }),
            SampleAiEnum::Code(SampleCode { lang: SampleLanguage::Js, inline: false, indent: SampleIndent::Two, content: "a b".to_string() }),
        ],
    };
    let ids = bpe_train_tokenize(&tokenizer, &[sample]).unwrap();
    let text: String = ids.iter().map(|&i| tokenizer.vocab[i as usize].clone()).collect();
    assert_eq!(
        text,
        "<sample><system>be nice</system><prompt>hi?</prompt><ai><text>hello.</text><line-break count=\"2\" /><js indent=\"2\">a b</js></ai></sample>"
    );
}

#[test]
fn applying_merges_reaches_a_fixpoint() {
    let vocab: Vec<String> = ["a", "b", "c", "ab", "abc"].iter().map(|s| s.to_string()).collect();
    let merges = vec![("a".to_string(), "b".to_string()), ("ab".to_string(), "c".to_string())];
    let ids = apply_merges_fast("abcab", &merges, &vocab);
    assert!(!ids.is_empty() && ids.len() <= 5);
    let spelled: String = ids.iter().map(|&i| vocab[i as usize].clone()).collect();
    assert_eq!(spelled, "abcab");
    for w in ids.windows(2) {
        let pair = (vocab[w[0] as usize].clone(), vocab[w[1] as usize].clone());
        assert!(!merges.contains(&pair));
    }
}
