//! Model files, where they are found, how they are fetched, and the memory they need.

use buzzcode::config::{Config, Engine};
use buzzcode::digest::Checksum;
use buzzcode::discover::{
    add_files, discover_all_available_models, distinct_paths, enters_dir, file_model, find_discovered, is_whole_model,
    list_local_models, manifest_model, model_candidates, ollama_tag, server_candidates, shard_count, sorted_paths, split_repo_file,
    ModelOrigin, ServerPlaces,
};
use buzzcode::catalog::KNOWN_DOWNLOADS;
use buzzcode::download::{
    begin, can_split, first_shard, hf_target, part_path, plan_start, range_header, Start,
};
use buzzcode::facts::{gib_tenths_text, gib_text, mib_text};
use buzzcode::gguf::{file_type_name, ggml_type_name, ggml_type_traits, GgufError, GgufFile, TensorInfo};
use buzzcode::gpu::{chip_name, free_mib, parse_page_count, query, managed_ram, system_ram, unified_gpu, vm_stat_free_bytes, GpuError};
use buzzcode::json::Json;
use buzzcode::pathname::{file_name, join_path, path_below};
use buzzcode::paths::Paths;
use buzzcode::release::{build_arguments, build_arguments_windows, expand_command, extract_command, script_candidates, pick_assets, BuildOptions, Platform};
use buzzcode::tune::{model_hash, tune_path, TunedProfile};
use buzzcode::vram::{KvType, PlanOpts, PlanPrefs, VramPlan, VramPlanner, MIB};

fn push_text(b: &mut Vec<u8>, s: &str) {
    b.extend((s.len() as u64).to_le_bytes());
    b.extend(s.as_bytes());
}

/// A file with an architecture, a number of layers and one tensor.
fn small_file() -> Vec<u8> {
    let mut b: Vec<u8> = Vec::new();
    b.extend(b"GGUF");
    b.extend(3u32.to_le_bytes());
    b.extend(1u64.to_le_bytes());
    b.extend(3u64.to_le_bytes());
    push_text(&mut b, "general.architecture");
    b.extend(8u32.to_le_bytes());
    push_text(&mut b, "llama");
    push_text(&mut b, "llama.block_count");
    b.extend(4u32.to_le_bytes());
    b.extend(2u32.to_le_bytes());
    push_text(&mut b, "llama.embedding_length");
    b.extend(4u32.to_le_bytes());
    b.extend(64u32.to_le_bytes());
    push_text(&mut b, "blk.1.attn_q.weight");
    b.extend(2u32.to_le_bytes());
    b.extend(64u64.to_le_bytes());
    b.extend(64u64.to_le_bytes());
    b.extend(0u32.to_le_bytes());
    b.extend(0u64.to_le_bytes());
    b
}

#[test]
fn a_model_file_is_read() {
    let f = GgufFile::parse(&small_file(), "/m/x.gguf", 9999).unwrap();
    assert_eq!(f.version, 3);
    assert_eq!(f.arch(), "llama");
    assert_eq!(f.arch_u64("block_count"), Some(2));
    assert_eq!(f.get("general.architecture").unwrap().as_str(), Some("llama"));
    assert_eq!(f.tensors.len(), 1);
    assert_eq!(f.tensors[0].n_elements(), 4096);
    assert_eq!(f.tensors[0].n_bytes(), 4096 * 4);
    assert_eq!(f.tensors[0].block_index(), Some(1));
    assert!(f.measurable());
    let facts = f.facts();
    assert_eq!(facts.n_layer, 2);
    assert_eq!(facts.n_embd, 64);
    assert_eq!(facts.layer_bytes, vec![0, 16384]);
    assert_eq!(facts.total_bytes, facts.layer_bytes.iter().sum::<u64>() + facts.nonlayer_bytes + facts.mtp_bytes);
    assert!(!facts.is_moe());
    assert!(facts.summary(false).contains("llama"));
}

#[test]
fn broken_model_files_are_told_apart() {
    let whole = small_file();
    assert!(matches!(GgufFile::parse(&whole[..whole.len() - 1], "x", 0), Err(GgufError::Truncated)));
    assert!(matches!(GgufFile::parse(b"NOPE\x03\0\0\0", "x", 0), Err(GgufError::NotGguf(_))));
    let mut old = whole.clone();
    old[4] = 1;
    assert!(matches!(GgufFile::parse(&old, "x", 0), Err(GgufError::Version(1))));
    let mut many = whole.clone();
    many[8..16].copy_from_slice(&2_000_000u64.to_le_bytes());
    assert!(matches!(GgufFile::parse(&many, "x", 0), Err(GgufError::Counts)));
    let mut long = whole.clone();
    long[24..32].copy_from_slice(&100_000_000u64.to_le_bytes());
    assert!(matches!(GgufFile::parse(&long, "x", 0), Err(GgufError::StringTooLong(100_000_000))));
    let mut kind = whole;
    kind[52] = 99;
    assert!(matches!(GgufFile::parse(&kind, "x", 0), Err(GgufError::ValueType(99))));
}

#[test]
fn text_that_is_no_utf8_is_mended() {
    let mut b = small_file();
    let at = b.windows(5).position(|w| w == b"llama").unwrap();
    b[at] = 0xff;
    let f = GgufFile::parse(&b, "x", 0).unwrap();
    assert_eq!(f.arch(), "\u{fffd}lama");
}

#[test]
fn tensor_kinds() {
    assert_eq!(ggml_type_traits(12), (256, 144));
    assert_eq!(ggml_type_name(12), "Q4_K");
    assert_eq!(file_type_name(15), "Q4_K_M");
    let t = TensorInfo { name: "output.weight".into(), dims: vec![u64::MAX, 2], ggml_type: 0, offset: 0 };
    assert_eq!(t.elements_checked(), None);
    assert_eq!(t.block_index(), None);
}

#[test]
fn sizes_as_text() {
    assert_eq!(gib_text(3 << 30), "3.00");
    assert_eq!(gib_tenths_text(3 << 29), "1.5");
    assert_eq!(mib_text(5 << 20), "5");
}

#[test]
fn a_download_goes_on_where_it_stopped() {
    assert_eq!(plan_start(Some(100), Some(100), 0), Start::Done);
    assert_eq!(plan_start(Some(100), None, 100), Start::Rename);
    assert_eq!(plan_start(Some(100), None, 40), Start::Fetch { from: 40, drop_part: false });
    assert_eq!(plan_start(Some(100), Some(7), 140), Start::Fetch { from: 0, drop_part: true });
    assert_eq!(plan_start(None, Some(100), 40), Start::Fetch { from: 0, drop_part: false });
    assert_eq!(range_header(40), Some("bytes=40-".to_string()));
    assert_eq!(range_header(0), None);
    let mut d = begin(206, 40, Some(100)).unwrap();
    assert!(d.resumed);
    d.received(59);
    assert_eq!(d.finish().unwrap_err().got, 99);
    d.received(1);
    assert!(d.finish().is_ok());
    assert_eq!(d.progress().downloaded, 100);
    assert!(!begin(200, 40, None).unwrap().resumed);
    assert!(begin(404, 0, None).is_none());
}

#[test]
fn places_of_downloads() {
    let (url, dest) = hf_target("a/b", "c.gguf", "/m", false);
    assert_eq!(url, "https://huggingface.co/a/b/resolve/main/c.gguf");
    assert_eq!(dest, "/m/a/b/c.gguf");
    assert_eq!(part_path("/m/c.gguf", false), "/m/c.gguf.part");
    assert_eq!(first_shard("/m/x-00002-of-00003.gguf", false), "/m/x-00001-of-00003.gguf");
    assert_eq!(first_shard("/m/x.gguf", false), "/m/x.gguf");
    assert!(can_split("x-00002-of-00003.gguf"));
    assert!(can_split("x-of-y"));
    assert!(!can_split("xxxé0000-of-1"));
}

#[test]
fn a_checksum_is_that_of_all_pieces() {
    let mut a = Checksum::new();
    a.update(b"ab");
    a.update(b"c");
    assert_eq!(a.finish(), "ba7816bf8f01cfea414140de5dae2223b00361a396177a9cb410ff61f20015ad");
    assert_eq!(Checksum::new().finish(), "e3b0c44298fc1c149afbf4c8996fb92427ae41e4649b934ca495991b7852b855");
}

#[test]
fn names_of_models() {
    assert_eq!(ollama_tag("registry.ollama.ai/library/qwen3/8b"), "qwen3:8b");
    assert_eq!(ollama_tag(r"registry.ollama.ai\me\x\latest"), "me/x:latest");
    assert!(is_whole_model("a.gguf"));
    assert!(is_whole_model("a-00001-of-00002.gguf"));
    assert!(!is_whole_model("a-00002-of-00002.gguf"));
    assert_eq!(shard_count("a-00001-of-00003.gguf"), 3);
    let m = file_model("/m/a-00001-of-00003.gguf", 10, ModelOrigin::Local, false);
    assert_eq!(m.size, 30);
    assert_eq!(m.alias, "a-00001-of-00003");
    assert_eq!(split_repo_file("org/repo:file.gguf"), (Some("org/repo".to_string()), "file.gguf".to_string()));
    assert_eq!(split_repo_file("file.gguf"), (None, "file.gguf".to_string()));
    assert!(!enters_dir(".git"));
}

#[test]
fn manifests_name_their_blob() {
    let text = r#"{"layers":[{"mediaType":"application/vnd.ollama.image.license","digest":"sha256:aa","size":1},
        {"mediaType":"application/vnd.ollama.image.model","digest":"sha256:bb","size":7}]}"#;
    let m = manifest_model("registry.ollama.ai/library/q/8b", text, "/o/blobs", false).unwrap();
    assert_eq!(m.path, "/o/blobs/sha256-bb");
    assert_eq!(m.size, 7);
    assert_eq!(m.alias, "q:8b");
    assert!(manifest_model("x", "{}", "/o", false).is_none());
}

#[test]
fn models_are_listed_once() {
    let mut ms = Vec::new();
    add_files(&mut ms, &vec![("/m/a.gguf".to_string(), 5), ("/m/a.gguf".to_string(), 5), ("/m/mmproj-a.gguf".to_string(), 5)], ModelOrigin::LmStudio, false);
    let n = ms.len();
    let all = discover_all_available_models(vec![], ms, &vec![("/m/a.gguf".to_string(), 5), ("/l/b.gguf".to_string(), 9)], false);
    assert_eq!(all.len(), n + 1);
    assert_eq!(all.iter().filter(|m| m.path == "/m/a.gguf").count(), 1);
    assert!(find_discovered(&vec![], &all, "a").is_some());
    assert!(list_local_models(&all, false).iter().any(|(p, n)| p == "/l/b.gguf" && *n == 9));
    let d = distinct_paths(&vec!["/a".to_string(), "/b".to_string(), "/a".to_string()], false);
    assert_eq!(d, vec!["/a", "/b"]);
    let spelled = vec!["/m//a/./b".to_string(), "/m/a-b".to_string(), "/m/a/b/".to_string(), "/m/..".to_string()];
    assert_eq!(distinct_paths(&spelled, false), vec!["/m//a/./b", "/m/a-b", "/m/.."]);
    assert_eq!(sorted_paths(&spelled, false), vec!["/m/..", "/m//a/./b", "/m/a-b"]);
    let drives = vec!["C:\\m".to_string(), "c:/m/".to_string(), "\\m".to_string(), "\\\\h\\s\\m".to_string()];
    assert_eq!(sorted_paths(&drives, true), vec!["\\\\h\\s\\m", "C:\\m", "\\m"]);
}

#[test]
fn the_configured_server_is_looked_for_first() {
    let p = ServerPlaces {
        configured: Some("/x/llama-server".into()),
        prefer_prebuilt: true,
        prebuilt_dir: "/p".into(),
        built: None,
        source_dir: "/s".into(),
        path_dirs: vec!["/usr/bin".into()],
        platform: vec![],
        exe: "llama-server".into(),
        windows: false,
    };
    let c = server_candidates(&p);
    assert_eq!(c[0], "/x/llama-server");
    assert!(c.contains(&"/usr/bin/llama-server".to_string()));
    let roots = vec!["/r".to_string()];
    assert_eq!(model_candidates(&roots, "a/b:m.gguf", "a/b:m.gguf", false), vec!["/r/a/b:m.gguf", "/r/a/b/m.gguf"]);
    assert!(model_candidates(&roots, "m.gguf", "m.gguf", false).contains(&"/r/m.gguf".to_string()));
}

#[test]
fn release_files_suit_the_platform() {
    let release = Json::parse(
        r#"{"assets":[
            {"name":"llama-b1-bin-win-cuda-12.4-x64.zip","browser_download_url":"u12"},
            {"name":"cudart-llama-bin-win-cuda-13.1-x64.zip","browser_download_url":"r13"},
            {"name":"llama-b1-bin-win-cuda-13.1-x64.zip","browser_download_url":"u13"},
            {"name":"llama-b1-bin-macos-arm64.zip","browser_download_url":"mac"},
            {"name":"llama-b1-bin-ubuntu-x64.tar.gz","browser_download_url":"lin"}]}"#,
    )
    .unwrap();
    let (bin, runtime) = pick_assets(&release, Platform::Windows).unwrap();
    assert_eq!(bin.unwrap().1, "u13");
    assert_eq!(runtime.unwrap().1, "r13");
    assert_eq!(pick_assets(&release, Platform::MacOs).unwrap().0.unwrap().1, "mac");
    assert_eq!(pick_assets(&release, Platform::Linux).unwrap().0.unwrap().1, "lin");
    assert!(pick_assets(&Json::parse("{}").unwrap(), Platform::Linux).is_none());
    assert_eq!(extract_command("a.tar.gz", "/d").0, "tar");
    assert_eq!(extract_command("a.zip", "/d"), ("unzip".to_string(), vec!["-o".into(), "a.zip".into(), "-d".into(), "/d".into()]));
    let opts = BuildOptions { pin: None, clean: true, allow_cuda_132: false, allow_unsupported_compiler: false };
    let args = build_arguments("s.ps1", "/d", &opts, "b123");
    assert_eq!(args, vec!["s.ps1", "/d", "b123"]);
    let args = build_arguments_windows("s.ps1", "/d", &opts, "", "", "120");
    assert_eq!(args[5..], ["s.ps1", "-Dir", "/d", "-CudaArch", "120", "-Clean"]);
    assert_eq!(expand_command("a.zip", "d"), "Expand-Archive -LiteralPath 'a.zip' -DestinationPath 'd' -Force");
    assert_eq!(script_candidates(&vec!["/x".to_string()], "b.sh", false)[2], "/x/scripts/macos/b.sh");
}

#[test]
fn graphics_memory_is_read() {
    let g = query("NVIDIA RTX, 555.1, 16311, 1000, 15311\nother, 1, 2, 3, 4\n").unwrap();
    assert_eq!(g.name, "NVIDIA RTX");
    assert_eq!(g.mem.free_mib, 15311);
    assert_eq!(g.mem.total_bytes(), 16311 << 20);
    assert!(matches!(query("a, b, 1"), Err(GpuError::Shape)));
    assert!(matches!(query("a, b, 1, x, 3"), Err(GpuError::Field(3))));
    assert_eq!(free_mib("n, d, 10, 4, 6").unwrap(), 6);
    assert_eq!(system_ram(Some("MemTotal:  1000 kB\nMemFree: 1 kB\nMemAvailable: 400 kB\n")), (1000 * 1024, 400 * 1024));
    assert_eq!(managed_ram(Some("1000 400\r\n")), (1000 * 1024, 400 * 1024));
    assert_eq!(managed_ram(None), (32 << 30, 16 << 30));
    assert_eq!(parse_page_count("Pages free:      123."), 123);
    assert_eq!(
        vm_stat_free_bytes("Mach Virtual Memory Statistics: (page size of 16384 bytes)\nPages free: 2.\nPages inactive: 3.\nPages speculative: 1.\n"),
        6 * 16384
    );
    assert_eq!(chip_name(Some("Apple M3\n")), "Apple M3 (Metal Unified Memory)");
    assert_eq!(chip_name(None), "Apple Silicon (Metal)");
    let u = unified_gpu("Apple M3".into(), 16 << 30, 8 << 30);
    assert_eq!(u.name, "Apple M3");
}

fn plan() -> VramPlan {
    VramPlan {
        ngl: 65,
        n_ctx: 32768,
        override_tensor: None,
        ffn_cpu_blocks: 0,
        ctx_checkpoints: 0,
        est_vram_bytes: 100 * MIB,
        est_cpu_weight_bytes: 0,
        free_vram_bytes: 2000 * MIB,
        rationale: String::new(),
    }
}

#[test]
fn a_tuned_plan_is_restored() {
    let t = TunedProfile::from_plan("m.gguf", "h", "p", &plan(), 0);
    assert_eq!(t.tuned_at, "1970-01-01T00:00:00Z");
    assert_eq!(t.free_vram_mib_at_tune, 2000);
    assert!(t.still_valid(1744));
    assert!(!t.still_valid(1743));
    let back = t.to_plan();
    assert_eq!((back.ngl, back.n_ctx, back.ffn_cpu_blocks), (65, 32768, 0));
    assert_eq!(back.rationale, "restored tuned profile from 1970-01-01T00:00:00Z");
    let paths = Paths::discover(Some("/h"), "/w", false).unwrap();
    assert!(tune_path(&paths, "abc", "fast").ends_with("/abc-fast.toml"));
}

#[test]
fn model_hashes_see_size_and_ends() {
    let a = model_hash(10, 7, b"head", b"tail");
    assert_eq!(a.len(), 16);
    assert_ne!(a, model_hash(11, 7, b"head", b"tail"));
    assert_ne!(a, model_hash(10, 8, b"head", b"tail"));
    assert_ne!(a, model_hash(10, 7, b"Head", b"tail"));
    assert_ne!(a, model_hash(10, 7, b"head", b"Tail"));
    assert_eq!(a, model_hash(10, 7, b"head", b"tail"));
    assert_ne!(model_hash(3 << 20, 7, b"head", b"tail"), model_hash(3 << 20, 7, b"head", b"other"));
    assert!(a.chars().all(|c| c.is_ascii_hexdigit()));
}

#[test]
fn cache_kinds() {
    assert!(matches!(KvType::parse("q8_0"), KvType::Q8_0));
    assert_eq!(KvType::Q4_0.flag(), "q4_0");
    assert_eq!(KvType::F16.bytes_per_block(), 64);
    assert_eq!(KvType::Q8_0.bytes_per_block(), 34);
}

#[test]
fn a_plan_never_asks_for_more_than_there_is() {
    let f = GgufFile::parse(&small_file(), "/m/x.gguf", 9999).unwrap().facts();
    let p = VramPlanner { facts: &f, free_vram: 8000 * MIB, total_vram: 16000 * MIB, free_ram: 1 << 34 };
    let prefs = PlanPrefs { pref_ctx: 8192, min_ctx: 4096, allow_offload: true, fixed_ngl: None, fixed_ot: None };
    let plan = p.plan(&prefs, &PlanOpts::default());
    assert_eq!(plan.ngl, 3);
    assert_eq!(plan.n_ctx, 8192);
    assert!(plan.est_vram_bytes <= 8000 * MIB);
    let fixed = p.plan(&PlanPrefs { fixed_ngl: Some(1), ..prefs }, &PlanOpts::default());
    assert_eq!(fixed.ngl, 1);
}

#[test]
fn defaults_of_the_engine_are_local() {
    let c = Config::default();
    assert_eq!(c.engine.base_url(), Engine::default().base_url());
}

#[test]
fn last_parts_of_paths() {
    assert_eq!(file_name("/a/b/c.gguf", false), "c.gguf");
    assert_eq!(file_name("/a/b/", false), "b");
    assert_eq!(file_name("/a/b/./.", false), "b");
    assert_eq!(file_name("a/..", false), "");
    assert_eq!(file_name("/", false), "");
    assert_eq!(file_name(".", false), "");
    assert_eq!(file_name("", false), "");
    assert_eq!(file_name("C:\\models\\x.gguf", false), "C:\\models\\x.gguf");
    assert_eq!(file_name("a\\b", false), "a\\b");
    assert_eq!(file_name("C:\\models\\x.gguf", true), "x.gguf");
    assert_eq!(file_name("C:\\models/x.gguf\\", true), "x.gguf");
    assert_eq!(file_name("a\\b", true), "b");
    assert_eq!(file_name("C:\\", true), "");
    assert_eq!(file_name("C:", true), "");
    assert_eq!(file_name("C:x", true), "x");
    assert_eq!(file_name("\\\\host\\files", true), "");
    assert_eq!(file_name("\\\\host\\files\\x", true), "x");
}

#[test]
fn paths_are_joined_and_compared() {
    assert_eq!(join_path("/a", "b", false), "/a/b");
    assert_eq!(join_path("/a/", "b", false), "/a/b");
    assert_eq!(join_path("/a", "/b", false), "/b");
    assert_eq!(join_path("C:\\a", "b", false), "C:\\a/b");
    assert_eq!(join_path("/a", "D:/b", false), "/a/D:/b");
    assert_eq!(join_path("C:\\a", "b", true), "C:\\a\\b");
    assert_eq!(join_path("C:\\a", "D:/b", true), "D:/b");
    assert_eq!(join_path("C:\\a", "\\b", true), "C:\\b");
    assert_eq!(join_path("C:\\", "b", true), "C:\\b");
    assert_eq!(join_path("C:", "b", true), "C:b");
    assert_eq!(join_path("a/", "b", true), "a/b");
    assert_eq!(path_below("/w", "/w/src/a.rs", false), "src/a.rs");
    assert_eq!(path_below("/w/", "/w//./src/a.rs/", false), "src/a.rs");
    assert_eq!(path_below("/w", "/w", false), "");
    assert_eq!(path_below("/w", "/work/a.rs", false), "/work/a.rs");
    assert_eq!(path_below("/w", "/w/a\\b.rs", false), "a/b.rs");
    assert_eq!(path_below("C:\\w", "c:/w\\src\\a.rs", true), "src/a.rs");
    assert_eq!(path_below("C:\\w", "D:\\w\\a.rs", true), "D:/w/a.rs");
    assert_eq!(path_below("\\\\h\\s", "\\\\h\\s\\a.rs", true), "a.rs");
}

#[test]
fn the_first_shard_is_its_own_first() {
    for windows in [false, true] {
        for p in ["/m/x-00002-of-00003.gguf", "x-00001-of-00001.gguf", "m/x-00007-of-123456.gguf", "d/x-00003-of-3.gguf/"] {
            let first = first_shard(p, windows);
            assert_eq!(first_shard(&first, windows), first);
            assert!(file_name(&first, windows).starts_with("x-00001-of-"), "{first}");
        }
    }
    assert_eq!(first_shard("C:\\m\\x-00007-of-123456.gguf", true), "C:\\m\\x-00001-of-123456.gguf");
    assert_eq!(first_shard("d//x-00003-of-3.gguf/", false), "d/x-00001-of-3.gguf");
    assert_eq!(part_path("/m/c", false), "/m/c..part");
    assert_eq!(part_path("/m/c.gguf/", false), "/m/c.gguf.part");
}

#[test]
fn known_types_have_distinct_names() {
    let known: Vec<u32> = (0..100).filter(|t| ggml_type_name(*t) != "?").collect();
    let mut expected: Vec<u32> = (0..=3).collect();
    expected.extend(6..=30);
    expected.extend([34, 35, 39]);
    assert_eq!(known, expected);
    let mut names: Vec<&str> = known.iter().map(|t| ggml_type_name(*t)).collect();
    names.sort();
    names.dedup();
    assert_eq!(names.len(), known.len());
}

#[test]
fn files_that_can_be_fetched() {
    assert_eq!(KNOWN_DOWNLOADS.len(), 12);
    assert_eq!(KNOWN_DOWNLOADS[3], ("unsloth/Qwen3.8-27B-GGUF", "Qwen3.8-27B-UD-IQ3_XXS.gguf", "10.18"));
    assert!(KNOWN_DOWNLOADS.iter().all(|(_, f, s)| f.ends_with(".gguf") && s.parse::<f64>().is_ok()));
}
