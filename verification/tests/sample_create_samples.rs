#![allow(unused_imports)]

use poppins::train_xml::{
    IdMap, TrainXML, TrainXMLIdMaps, TrainXMLSystemPrompts, TrainXMLSystemPromptsSystem,
    TrainXMLPrompts, TrainXMLPromptsPrompt, TrainXMLResponses, TrainXMLResponsesResponse,
    TrainXMLSources, TrainXMLSourcesSource, TrainXMLCodeSnippets, TrainXMLCodeSnippetsCode,
    TrainXMLSamples, TrainXMLSamplesSampleIds, TrainXMLSamplesSample, TrainXMLSamplesSampleChildren,
    TrainXMLSamplesPrompt, TrainXMLSamplesSystem, TrainXMLSamplesResponse, TrainXMLSamplesSource,
    TrainXMLSamplesCode, TrainXMLSamplesResponseIds, TrainXMLLineBreak, TrainXMLBeyondScope,
    TrainXMLBeyondScopeTopic,
};
use poppins::sample::{
    Sample, SamplePromptEnum, SampleAiEnum, sample_create_samples, sample_create_via_ids,
    sample_create_via_tags,
};
use poppins::beyond_scope::beyond_scope_create_samples;

/// The entries of a document by id.
fn id_maps(x: &TrainXML) -> TrainXMLIdMaps<'_> {
    let mut ids = TrainXMLIdMaps {
        system_prompts: IdMap::new(),
        prompts: IdMap::new(),
        thoughts: IdMap::new(),
        responses: IdMap::new(),
        sources: IdMap::new(),
        code_snippets: IdMap::new(),
    };
    for s in x.system_prompts.iter().flat_map(|s| s.system.iter()) {
        ids.system_prompts.insert(s.id.clone(), s);
    }
    for p in x.prompts.iter().flat_map(|p| p.prompt.iter()) {
        ids.prompts.insert(p.id.clone(), p);
    }
    for r in x.responses.iter().flat_map(|r| r.response.iter()) {
        ids.responses.insert(r.id.clone(), r);
    }
    for s in x.sources.iter().flat_map(|s| s.source.iter()) {
        ids.sources.insert(s.id.clone(), s);
    }
    for c in x.code_snippets.iter().flat_map(|c| c.code.iter()) {
        ids.code_snippets.insert(c.id.clone(), c);
    }
    ids
}

    fn create_comprehensive_train_xml() -> TrainXML {
        // System prompts
        let system_prompts = TrainXMLSystemPrompts {
            system: vec![
                TrainXMLSystemPromptsSystem {
                    id: "sy_default".to_string(),
                    content: "You are a helpful computer programming assistant.".to_string(),
                },
            ],
        };
        
        // Prompts
        let prompts = TrainXMLPrompts {
            prompt: vec![
                TrainXMLPromptsPrompt {
                    id: "1".to_string(),
                    content: "What is a computer?".to_string(),
                },
                TrainXMLPromptsPrompt {
                    id: "2".to_string(),
                    content: "What is a programming language?".to_string(),
                },
                TrainXMLPromptsPrompt {
                    id: "3".to_string(),
                    content: "What is artificial intelligence?".to_string(),
                },
            ],
        };
        
        // Responses
        let responses = TrainXMLResponses {
            response: vec![
                TrainXMLResponsesResponse {
                    id: "1".to_string(),
                    content: "A computer is a computing / information processing device.".to_string(),
                },
                TrainXMLResponsesResponse {
                    id: "2".to_string(),
                    content: "A programming language is a formal language for writing instructions.".to_string(),
                },
                TrainXMLResponsesResponse {
                    id: "3".to_string(),
                    content: "Artificial intelligence is the simulation of human intelligence in machines.".to_string(),
                },
                TrainXMLResponsesResponse {
                    id: "beyond_scope_response".to_string(),
                    content: "I'm sorry, I don't know, I'm a computer programming assistant".to_string(),
                },
            ],
        };
        
        // Sources
        let sources = TrainXMLSources {
            source: vec![
                TrainXMLSourcesSource {
                    id: "1".to_string(),
                    url: "https://en-word.net/lemma/computer".to_string(),
                    title: None,
                },
                TrainXMLSourcesSource {
                    id: "2".to_string(),
                    url: "https://en.wikipedia.org/wiki/Programming_language".to_string(),
                    title: None,
                },
                TrainXMLSourcesSource {
                    id: "3".to_string(),
                    url: "https://en.wikipedia.org/wiki/Artificial_intelligence".to_string(),
                    title: None,
                },
            ],
        };
        
        // Code snippets
        let code_snippets = TrainXMLCodeSnippets {
            code: vec![
                TrainXMLCodeSnippetsCode {
                    id: "1".to_string(),
                    lang: "ts".to_string(),
                    content: "\nfunction example() {\n  console.log('hi world')\n}\n    ".to_string(),
                },
            ],
        };
        
        // Samples w/ <sample/> & <sample-ids/>
        let samples = TrainXMLSamples {
            sample_ids: Some(vec![
                TrainXMLSamplesSampleIds {
                    system: Some("sy_default".to_string()),
                    prompt: "1".to_string(),
                    thought: None,
                    response: Some("1".to_string()),
                    source: Some("1".to_string()),
                    code: None,
                },
            ]),
            sample: Some(vec![
                TrainXMLSamplesSample {
                    children: vec![
                        // Prompt must be first or at least present
                        TrainXMLSamplesSampleChildren::Prompt(TrainXMLSamplesPrompt { id: "2".to_string() }),
                        // System prompt
                        TrainXMLSamplesSampleChildren::System(TrainXMLSamplesSystem { 
                            id: "sy_default".to_string() 
                        }),
                        // First response
                        TrainXMLSamplesSampleChildren::Response(TrainXMLSamplesResponse { 
                            id: "2".to_string() 
                        }),
                        // Its source
                        TrainXMLSamplesSampleChildren::Source(TrainXMLSamplesSource { 
                            id: "2".to_string() 
                        }),
                        // Second response
                        TrainXMLSamplesSampleChildren::Response(TrainXMLSamplesResponse { 
                            id: "3".to_string() 
                        }),
                        // Its source
                        TrainXMLSamplesSampleChildren::Source(TrainXMLSamplesSource { 
                            id: "3".to_string() 
                        }),
                        // Code example
                        TrainXMLSamplesSampleChildren::Code(TrainXMLSamplesCode { 
                            id: "1".to_string(),
                            indent: None,
                            inline: None,
                        }),
                        // Add a response-id for testing
                        TrainXMLSamplesSampleChildren::ResponseIds(TrainXMLSamplesResponseIds { 
                            response: "1".to_string(),
                            source: Some("1".to_string()),
                        }),
                        // Add some line breaks for testing
                        TrainXMLSamplesSampleChildren::LineBreak(TrainXMLLineBreak { count: 1 }),
                        TrainXMLSamplesSampleChildren::LineBreak(TrainXMLLineBreak { count: 2 }),
                    ],
                },
                TrainXMLSamplesSample {
                    children: vec![
                        // Prompt must be first or at least present
                        TrainXMLSamplesSampleChildren::Prompt(TrainXMLSamplesPrompt { id: "3".to_string() }),
                        // System prompt
                        TrainXMLSamplesSampleChildren::System(TrainXMLSamplesSystem { 
                            id: "sy_default".to_string() 
                        }),
                        // Response
                        TrainXMLSamplesSampleChildren::Response(TrainXMLSamplesResponse { 
                            id: "3".to_string() 
                        }),
                        // Source
                        TrainXMLSamplesSampleChildren::Source(TrainXMLSamplesSource { 
                            id: "3".to_string() 
                        }),
                    ],
                },
            ]),
        };
        
        // Beyond-scope configuration
        let beyond_scope = TrainXMLBeyondScope {
            system: "sy_default".to_string(),
            response: "beyond_scope_response".to_string(),
            sports: Some(true),
            food: Some(false),
            movies: Some(true),
            history: Some(false),
            geography: Some(false),
            politics: Some(false),
            science: Some(true),
            health: Some(false),
            art: Some(false),
            music: Some(false),
            fashion: Some(false),
            travel: Some(false),
            pets: Some(false),
            cars: Some(false),
            topics: vec![
                TrainXMLBeyondScopeTopic {
                    value: "quantum computing".to_string(),
                    prefix: "is".to_string(),
                },
                TrainXMLBeyondScopeTopic {
                    value: "blockchain".to_string(),
                    prefix: "is".to_string(),
                },
            ],
        };
        
        TrainXML {
            system_prompts: Some(system_prompts),
            prompts: Some(prompts),
            responses: Some(responses),
            sources: Some(sources),
            code_snippets: Some(code_snippets),
            samples: Some(samples),
            beyond_scope: Some(beyond_scope),
        }
    }

    #[test]
    fn test_sample_create_samples_empty_patterns() {
        let train_xml = create_comprehensive_train_xml();
        let ids = id_maps(&train_xml);
                
        // Without patterns every sample has an empty list of variants
        let samples = sample_create_samples(&train_xml, &ids, vec![Vec::new(); 3], vec![Vec::new(); 35]);
        
        // Without patterns, no variants should be generated
        // Original samples: 3 base samples
        // Beyond-scope topics: 35 topics (no variants since patterns empty)
        // Total = 3 + 35 = 38 samples
        let expected_total = 3 + 35;
        assert_eq!(
            samples.train_samples.len() + samples.val_samples.len(),
            expected_total,
            "Total samples should be original + beyond-scope (no variants)"
        );
        
        // Verify no variants exist (no "Define" in any prompt)
        let all_prompts: Vec<String> = samples.train_samples.iter()
            .chain(samples.val_samples.iter())
            .flat_map(|s| s.prompt_section.iter())
            .filter_map(|p| match p {
                SamplePromptEnum::Text(t) => Some(t.clone()),
                _ => None,
            })
            .collect();
        
        let has_define = all_prompts.iter().any(|p| p.contains("Define"));
        assert!(!has_define, "Should have no 'Define' variants when patterns empty");
    }

    fn prompt_text(s: &Sample) -> String {
        match &s.prompt_section[0] {
            SamplePromptEnum::Text(t) => t.clone(),
            _ => String::new(),
        }
    }

    #[test]
    fn each_group_sends_one_sample_to_validation() {
        let train_xml = create_comprehensive_train_xml();
        let ids = id_maps(&train_xml);
        let variant = |text: &str| Sample {
            system: None,
            thought: None,
            prompt_section: vec![SamplePromptEnum::Text(text.to_string())],
            ai_section: vec![SampleAiEnum::Text("v".to_string())],
        };
        let variants = vec![vec![variant("Define computer.")], vec![], vec![variant("a"), variant("b")]];
        let samples = sample_create_samples(&train_xml, &ids, variants, vec![Vec::new(); 35]);
        // two groups of two or more, one lone sample; the 35 beyond-scope samples have no variants
        assert_eq!(samples.val_samples.len(), 2);
        assert_eq!(samples.train_samples.len(), 2 + 1 + 1 + 35);
        let mut all: Vec<String> = samples.train_samples.iter().chain(samples.val_samples.iter())
            .filter(|s| matches!(&s.ai_section[0], SampleAiEnum::Text(t) if !t.contains("I'm sorry")))
            .map(prompt_text).collect();
        all.sort();
        assert_eq!(all, vec!["Define computer.", "What is a computer?", "What is a programming language?", "What is artificial intelligence?", "a", "b"]);
    }

    #[test]
    fn without_samples_only_beyond_scope_remains() {
        let mut train_xml = create_comprehensive_train_xml();
        train_xml.samples = None;
        let ids = id_maps(&train_xml);
        let samples = sample_create_samples(&train_xml, &ids, vec![], vec![Vec::new(); 35]);
        assert_eq!(samples.train_samples.len(), 35);
        assert!(samples.val_samples.is_empty());
        assert!(samples.train_samples.iter().all(|s| matches!(&s.ai_section[0], SampleAiEnum::Text(t) if t.contains("I'm sorry"))));
    }

    /// The two "Define" variants of a sample whose prompt asks "What is/are (a/an/the) X?".
    fn define_variants(s: &Sample) -> Vec<Sample> {
        let text = match &s.prompt_section[0] {
            SamplePromptEnum::Text(t) => t.clone(),
            _ => return vec![],
        };
        let rest = match text.strip_prefix("What is ").or_else(|| text.strip_prefix("What are ")) {
            Some(r) => r,
            None => return vec![],
        };
        let rest = rest.strip_prefix("a ").or_else(|| rest.strip_prefix("an ")).or_else(|| rest.strip_prefix("the ")).unwrap_or(rest);
        let topic = match rest.strip_suffix('?') {
            Some(t) => t,
            None => return vec![],
        };
        ["Define {}.", "Define: {}."]
            .iter()
            .map(|form| Sample {
                system: s.system.clone(),
                thought: s.thought.clone(),
                prompt_section: vec![SamplePromptEnum::Text(form.replace("{}", topic))],
                ai_section: s.ai_section.clone(),
            })
            .collect()
    }

    /// The variant lists of the document's own samples and of its beyond-scope samples.
    fn variants_for(x: &TrainXML, ids: &TrainXMLIdMaps) -> (Vec<Vec<Sample>>, Vec<Vec<Sample>>) {
        let mut regular = Vec::new();
        if let Some(section) = &x.samples {
            for s in section.sample_ids.iter().flatten() {
                regular.extend(sample_create_via_ids(s, ids));
            }
            for s in section.sample.iter().flatten() {
                regular.extend(sample_create_via_tags(s, ids));
            }
        }
        let beyond = beyond_scope_create_samples(x, ids);
        (regular.iter().map(define_variants).collect(), beyond.iter().map(define_variants).collect())
    }

    #[test]
    fn test_sample_create_samples_comprehensive() {
        // Create a comprehensive train XML with all variations
        let train_xml = create_comprehensive_train_xml();
        
        // Create ID maps
        let ids = id_maps(&train_xml);
        
        // Create compiled phrase patterns
        // The variants that the phrase "What (?:is|are) (?:a |an |the )?(.*?)\\?" with "Define $1." and
        // "Define: $1." gives each sample
        let (variants, beyond_variants) = variants_for(&train_xml, &ids);
        
        // Create samples
        let samples = sample_create_samples(&train_xml, &ids, variants, beyond_variants);
        
        let all_samples: Vec<&Sample> = samples.train_samples.iter()
            .chain(samples.val_samples.iter())
            .collect();
        
        // Verify train/val split (should have some in each)
        assert!(!samples.train_samples.is_empty(), "Train samples should not be empty");
        assert!(!samples.val_samples.is_empty(), "Val samples should not be empty");
        
        // Original samples: 3 base samples
        // Each base sample has 2 variants = 3 * 3 = 9 total original samples
        // Beyond-scope topics: sports (12) + movies (11) + science (10) + custom (2) = 35 topics
        // Each beyond-scope topic has 2 variants = 35 * 3 = 105 beyond-scope samples
        // Total = 9 + 105 = 114 samples
        let expected_total = 9 + (35 * 3);
        assert_eq!(
            samples.train_samples.len() + samples.val_samples.len(), 
            expected_total, 
            "Total samples should match (original variants + beyond-scope topics with variants)"
        );
        
        // Verify that we have samples from both original prompts
        let computer_samples = all_samples.iter().filter(|s| {
            s.prompt_section.iter().any(|p| {
                match p {
                    SamplePromptEnum::Text(t) => t.contains("computer"),
                    _ => false,
                }
            })
        }).count();
        
        let programming_samples = all_samples.iter().filter(|s| {
            s.prompt_section.iter().any(|p| {
                match p {
                    SamplePromptEnum::Text(t) => t.contains("programming language"),
                    _ => false,
                }
            })
        }).count();
        
        let ai_samples = all_samples.iter().filter(|s| {
            s.prompt_section.iter().any(|p| {
                match p {
                    SamplePromptEnum::Text(t) => t.contains("artificial intelligence"),
                    _ => false,
                }
            })
        }).count();
        
        assert_eq!(computer_samples, 3, "Should have 3 computer-related samples (original + 2 variants)");
        assert_eq!(programming_samples, 3, "Should have 3 programming language-related samples (original + 2 variants)");
        assert_eq!(ai_samples, 3, "Should have 3 AI-related samples (original + 2 variants)");
        
        // Verify beyond-scope samples are present (including variants)
        let beyond_scope_samples = all_samples.iter().filter(|s| {
            s.ai_section.iter().any(|ai| {
                match ai {
                    SampleAiEnum::Text(text) => text.contains("I'm sorry, I don't know"),
                    _ => false,
                }
            })
        }).count();
        
        // Beyond-scope topics: 35 topics * 3 samples each (original + 2 variants) = 105
        assert_eq!(beyond_scope_samples, 105, "Should have 105 beyond-scope samples (35 topics * 3 samples each)");
        
        // Verify sample content includes system prompts (now in the system field)
        let has_system_prompt = all_samples.iter().any(|s| {
            s.system.as_deref().map_or(false, |x| !x.is_empty() && x.contains("You are a helpful computer programming assistant"))
        });
        assert!(has_system_prompt, "Should have samples with system prompt");
        
        // Verify sample content
        for sample in &all_samples {
            // Verify token stats on AI section items
            for ai_item in &sample.ai_section {
                match ai_item {
                    SampleAiEnum::Text(text) => {
                        assert!(!text.is_empty());
                    },
                    SampleAiEnum::Source(source) => {
                        assert!(!source.is_empty());
                    },
                    SampleAiEnum::Code(code) => {
                        assert!(!code.content.is_empty());
                    },
                    SampleAiEnum::LineBreak(line_break) => {
                        assert!(line_break.count == 1 || line_break.count == 2, "Line break count must be 1 or 2, got {}", line_break.count);
                    },
                }
            }
        }
        
        // Verify that the original prompt content appears in some samples
        let has_computer_prompt = all_samples.iter().any(|s| {
            s.prompt_section.iter().any(|p| {
                match p {
                    SamplePromptEnum::Text(t) => t.contains("computer"),
                    _ => false,
                }
            })
        });
        assert!(has_computer_prompt, "Should have samples with 'computer' prompt");
        
        let has_programming_prompt = all_samples.iter().any(|s| {
            s.prompt_section.iter().any(|p| {
                match p {
                    SamplePromptEnum::Text(t) => t.contains("programming language"),
                    _ => false,
                }
            })
        });
        assert!(has_programming_prompt, "Should have samples with 'programming language' prompt");
        
        // Verify that beyond-scope topics are correctly formatted
        let beyond_scope_questions: Vec<String> = all_samples.iter()
            .filter(|s| {
                s.ai_section.iter().any(|ai| {
                    match ai {
                        SampleAiEnum::Text(text) => text.contains("I'm sorry, I don't know"),
                        _ => false,
                    }
                })
            })
            .flat_map(|s| s.prompt_section.iter())
            .filter_map(|p| match p {
                SamplePromptEnum::Text(t) => Some(t.clone()),
                _ => None,
            })
            .collect();
        
        // Check specific beyond-scope topics (original versions)
        assert!(beyond_scope_questions.contains(&"What is soccer?".to_string()));
        assert!(beyond_scope_questions.contains(&"What is the olympics?".to_string()));
        assert!(beyond_scope_questions.contains(&"What are movies?".to_string()));
        assert!(beyond_scope_questions.contains(&"What is netflix?".to_string()));
        assert!(beyond_scope_questions.contains(&"What is biology?".to_string()));
        assert!(beyond_scope_questions.contains(&"What is quantum computing?".to_string()));
        assert!(beyond_scope_questions.contains(&"What is blockchain?".to_string()));
        
        // Check variant versions of beyond-scope topics (should have "Define" variants)
        let has_define_variants = beyond_scope_questions.iter().any(|q| q.contains("Define"));
        assert!(has_define_variants, "Should have variant versions of beyond-scope topics with 'Define' format");
        
        // Verify that variants were created (should have different prompt text)
        let prompts: Vec<String> = all_samples.iter()
            .flat_map(|s| s.prompt_section.iter())
            .filter_map(|p| match p {
                SamplePromptEnum::Text(t) => Some(t.clone()),
                _ => None,
            })
            .collect();
        
        // Should have multiple variations of prompts
        assert!(prompts.len() > 100, "Should have many prompt variations");
        
        // Look for variant patterns in original prompts
        let has_define_format = prompts.iter().any(|p| p.contains("Define"));
        assert!(has_define_format, "Should have variants with 'Define' format");
    }

    #[test]
    fn test_sample_create_samples_no_beyond_scope() {
        let mut train_xml = create_comprehensive_train_xml();
        train_xml.beyond_scope = None;
        
        let ids = id_maps(&train_xml);
        // The variants that the phrase "What (?:is|are) (?:a |an |the )?(.*?)\\?" with "Define $1." and
        // "Define: $1." gives each sample
        let (variants, beyond_variants) = variants_for(&train_xml, &ids);
        
        let samples = sample_create_samples(&train_xml, &ids, variants, beyond_variants);
        
        // Only original samples with variants (3 base * 3 = 9)
        let expected_total = 9;
        assert_eq!(
            samples.train_samples.len() + samples.val_samples.len(),
            expected_total,
            "Total samples should only be original samples with variants"
        );
        
        // Verify no beyond-scope samples exist
        let has_beyond_scope = samples.train_samples.iter()
            .chain(samples.val_samples.iter())
            .any(|s| {
                s.ai_section.iter().any(|ai| {
                    match ai {
                        SampleAiEnum::Text(text) => text.contains("I'm sorry, I don't know"),
                        _ => false,
                    }
                })
            });
        assert!(!has_beyond_scope, "Should have no beyond-scope samples");
    }

    #[test]
    fn test_sample_create_samples_no_samples() {
        let mut train_xml = create_comprehensive_train_xml();
        train_xml.samples = None;
        
        let ids = id_maps(&train_xml);
        // The variants that the phrase "What (?:is|are) (?:a |an |the )?(.*?)\\?" with "Define $1." and
        // "Define: $1." gives each sample
        let (variants, beyond_variants) = variants_for(&train_xml, &ids);
        
        let samples = sample_create_samples(&train_xml, &ids, variants, beyond_variants);
        
        // Only beyond-scope samples with variants (35 topics * 3 = 105)
        let expected_total = 35 * 3;
        assert_eq!(
            samples.train_samples.len() + samples.val_samples.len(),
            expected_total,
            "Total samples should only be beyond-scope samples with variants"
        );
        
        // Verify no regular samples (no "computer" in prompts)
        let has_regular = samples.train_samples.iter()
            .chain(samples.val_samples.iter())
            .any(|s| {
                s.prompt_section.iter().any(|p| {
                    match p {
                        SamplePromptEnum::Text(t) => t.contains("computer") || t.contains("programming") || t.contains("artificial"),
                        _ => false,
                    }
                })
            });
        assert!(!has_regular, "Should have no regular samples");
    }
