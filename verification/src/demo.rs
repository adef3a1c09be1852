//! The pipelines the demo offers, and the records it reports.

use vstd::prelude::*;
use crate::text::{contains_part, has_part};

verus! {

/// A node of a demo pipeline.
pub struct NodeSpec {
    /// Node id.
    pub id: String,
    /// Display name.
    pub name: String,
    /// Kind of node: `data`, `llm` or `transform`.
    pub node_type: String,
}

/// A demo pipeline: its nodes, its edges and a Mermaid drawing.
pub struct PipelineSpec {
    /// Pipeline id.
    pub id: String,
    /// Display name.
    pub name: String,
    /// What the pipeline does.
    pub description: String,
    /// Its nodes, in an order every edge goes forward in.
    pub nodes: Vec<NodeSpec>,
    /// Its edges, as pairs of node ids.
    pub edges: Vec<(String, String)>,
    /// A Mermaid drawing of the pipeline.
    pub dag_mermaid: String,
}

/// The outcome of running a demo pipeline.
pub struct PipelineResult {
    /// Pipeline id.
    pub pipeline_id: String,
    /// Whether every node succeeded.
    pub success: bool,
    /// Total duration in milliseconds.
    pub total_duration_ms: u64,
    /// One result per node.
    pub node_results: Vec<NodeResult>,
}

/// The outcome of one node of a demo pipeline.
pub struct NodeResult {
    /// Node id.
    pub task_id: String,
    /// Node name.
    pub name: String,
    /// Whether it succeeded.
    pub success: bool,
    /// How long it ran, in milliseconds.
    pub duration_ms: u64,
    /// Its error message, if any.
    pub error: Option<String>,
}

/// A registered LLM model, as the demo lists it.
pub struct LLMModelInfo {
    /// Registry name.
    pub name: String,
    /// Provider name.
    pub provider: String,
    /// Model name.
    pub model: String,
    /// Whether it is the default model.
    pub is_default: bool,
}

/// A progress update of a running demo pipeline.
pub struct ProgressEvent {
    /// Pipeline id.
    pub pipeline: String,
    /// Node id.
    pub node_id: String,
    /// Node name.
    pub node_name: String,
    /// `started`, `completed`, `failed` or `done`.
    pub status: String,
    /// Share of nodes finished, from 0 to 100.
    pub percent: usize,
    /// Nodes finished.
    pub completed: usize,
    /// Nodes in all.
    pub total: usize,
    /// A message.
    pub message: String,
}

/// The query that picks a pipeline to run.
pub struct RunQuery {
    /// Pipeline id.
    pub pipeline: String,
}

/// The share of `total` that `completed` is, in whole percent rounded down; 0 when there is
/// nothing to do.
pub fn progress_percent(completed: usize, total: usize) -> (p: usize)
    requires
        completed * 100 <= usize::MAX,
    ensures
        total > 0 ==> p == (completed * 100) / (total as int),
        total == 0 ==> p == 0,
{
    if total > 0 {
        (completed * 100) / total
    } else {
        0
    }
}

/// The provider and model the demo shows for a registered model name: OpenAI's `gpt-4` for a
/// name containing `gpt`, Ollama's `llama3` for one containing `llama`, the custom
/// `doubao-pro-32k` for one containing `doubao`, and otherwise an unknown provider with the
/// name itself as the model.
pub open spec fn provider_and_model(name: Seq<char>) -> (Seq<char>, Seq<char>) {
    if has_part(name, "gpt"@) {
        ("OpenAI"@, "gpt-4"@)
    } else if has_part(name, "llama"@) {
        ("Ollama"@, "llama3"@)
    } else if has_part(name, "doubao"@) {
        ("Custom"@, "doubao-pro-32k"@)
    } else {
        ("Unknown"@, name)
    }
}

/// What the demo lists about the model registered as `name`, given the default model's name.
pub fn model_info(name: String, default_name: &Option<String>) -> (m: LLMModelInfo)
    ensures
        m.name == name,
        (m.provider@, m.model@) == provider_and_model(name@),
        m.is_default == (default_name matches Some(d) && d@ == name@),
{
    let is_default = match default_name {
        Some(d) => *d == name,
        None => false,
    };
    let (provider, model) = if contains_part(name.as_str(), "gpt") {
        ("OpenAI".to_owned(), "gpt-4".to_owned())
    } else if contains_part(name.as_str(), "llama") {
        ("Ollama".to_owned(), "llama3".to_owned())
    } else if contains_part(name.as_str(), "doubao") {
        ("Custom".to_owned(), "doubao-pro-32k".to_owned())
    } else {
        ("Unknown".to_owned(), name.clone())
    };
    LLMModelInfo { name, provider, model, is_default }
}

/// A node as plain text: id, name and kind.
pub type NodeView = (Seq<char>, Seq<char>, Seq<char>);

/// A pipeline as plain text: id, name, description, nodes, edges and drawing.
pub type PipelineView = (Seq<char>, Seq<char>, Seq<char>, Seq<NodeView>, Seq<(Seq<char>, Seq<char>)>, Seq<char>);

/// The text of a node.
pub open spec fn node_view(n: NodeSpec) -> NodeView {
    (n.id@, n.name@, n.node_type@)
}

/// The text of an edge.
pub open spec fn edge_view(e: (String, String)) -> (Seq<char>, Seq<char>) {
    (e.0@, e.1@)
}

/// The text of a pipeline.
pub open spec fn pipeline_view(p: PipelineSpec) -> PipelineView {
    (
        p.id@,
        p.name@,
        p.description@,
        p.nodes@.map_values(|n: NodeSpec| node_view(n)),
        p.edges@.map_values(|e: (String, String)| edge_view(e)),
        p.dag_mermaid@,
    )
}

/// The node ids of a pipeline, in order.
pub open spec fn node_ids(p: PipelineView) -> Seq<Seq<char>> {
    p.3.map_values(|n: NodeView| n.0)
}

/// The node ids of a pipeline are distinct, and every edge leads from a node to a later one:
/// the pipeline is a DAG whose node list is a topological order.
pub open spec fn edges_go_forward(p: PipelineView) -> bool {
    &&& node_ids(p).no_duplicates()
    &&& forall|k: int| 0 <= k < p.4.len() ==> #[trigger] edge_forward(p, k)
}

/// Edge `k` leads from a node to a later one.
pub open spec fn edge_forward(p: PipelineView, k: int) -> bool {
    exists|i: int, j: int|
        #![trigger node_ids(p)[i], node_ids(p)[j]]
        0 <= i < j < node_ids(p).len() && node_ids(p)[i] == p.4[k].0 && node_ids(p)[j] == p.4[k].1
}

/// The pipelines the demo offers, as text.
pub open spec fn catalog() -> Seq<PipelineView> {
    seq![
        (
            "basic"@,
            "基础 DAG 数据管道"@,
            "数据获取 → 数据清洗 → 数据验证 (并行) → 数据分析 → 报告生成 + 可视化导出 (并行)"@,
            seq![
                ("fetch_data"@, "获取销售数据"@, "data"@),
                ("clean_data"@, "清洗数据"@, "transform"@),
                ("validate_data"@, "验证数据"@, "transform"@),
                ("analyze_data"@, "分析数据"@, "transform"@),
                ("generate_report"@, "报告生成"@, "transform"@),
                ("export_visual"@, "可视化导出"@, "transform"@)
            ],
            seq![
                ("fetch_data"@, "clean_data"@),
                ("fetch_data"@, "validate_data"@),
                ("clean_data"@, "analyze_data"@),
                ("validate_data"@, "analyze_data"@),
                ("analyze_data"@, "generate_report"@),
                ("analyze_data"@, "export_visual"@)
            ],
            "flowchart TD\n    fetch_data[获取销售数据] --> clean_data[清洗数据]\n    fetch_data --> validate_data[验证数据]\n    clean_data --> analyze_data[分析数据]\n    validate_data --> analyze_data\n    analyze_data --> generate_report[报告生成]\n    analyze_data --> export_visual[可视化导出]"@,
        ),
        (
            "llm"@,
            "LLM 智能分析管道"@,
            "数据获取 → 数据清洗 → LLM 智能分析 → 生成智能报告"@,
            seq![
                ("fetch_data"@, "获取销售数据"@, "data"@),
                ("clean_data"@, "清洗数据"@, "transform"@),
                ("llm_analyze"@, "LLM 智能分析"@, "llm"@),
                ("generate_report"@, "生成智能报告"@, "transform"@)
            ],
            seq![
                ("fetch_data"@, "clean_data"@),
                ("clean_data"@, "llm_analyze"@),
                ("llm_analyze"@, "generate_report"@)
            ],
            "flowchart TD\n    fetch_data[获取销售数据] --> clean_data[清洗数据]\n    clean_data --> llm_analyze[LLM 智能分析]\n    llm_analyze --> generate_report[生成智能报告]"@,
        ),
        (
            "multi-model"@,
            "多模型协作管道"@,
            "数据获取 → 数据清洗 → GPT-4 分析 / Llama3 校验 / 统计计算 (并行) → 豆包报告润色 → Token 统计"@,
            seq![
                ("fetch_data"@, "获取销售数据"@, "data"@),
                ("clean_data"@, "清洗数据"@, "transform"@),
                ("gpt4_analysis"@, "GPT-4 深度分析"@, "llm"@),
                ("llama3_validate"@, "Llama3 本地校验"@, "llm"@),
                ("statistics"@, "统计计算"@, "transform"@),
                ("doubao_report"@, "豆包报告润色"@, "llm"@),
                ("token_summary"@, "Token 使用统计"@, "transform"@)
            ],
            seq![
                ("fetch_data"@, "clean_data"@),
                ("clean_data"@, "gpt4_analysis"@),
                ("clean_data"@, "llama3_validate"@),
                ("clean_data"@, "statistics"@),
                ("gpt4_analysis"@, "doubao_report"@),
                ("llama3_validate"@, "doubao_report"@),
                ("statistics"@, "doubao_report"@),
                ("doubao_report"@, "token_summary"@)
            ],
            "flowchart TD\n    fetch_data[获取销售数据] --> clean_data[清洗数据]\n    clean_data --> gpt4_analysis[GPT-4 深度分析]\n    clean_data --> llama3_validate[Llama3 本地校验]\n    clean_data --> statistics[统计计算]\n    gpt4_analysis --> doubao_report[豆包报告润色]\n    llama3_validate --> doubao_report\n    statistics --> doubao_report\n    doubao_report --> token_summary[Token 使用统计]"@,
        ),
        (
            "context"@,
            "执行上下文演示"@,
            "展示上下文读写、日志、快照恢复、DAG 数据传递"@,
            seq![
                ("producer"@, "数据生产者"@, "data"@),
                ("consumer"@, "数据消费者"@, "transform"@)
            ],
            seq![
                ("producer"@, "consumer"@)
            ],
            "flowchart TD\n    producer[数据生产者] --> consumer[数据消费者]"@,
        ),
        (
            "error-recovery"@,
            "错误恢复演示"@,
            "模拟网络超时，演示指数退避重试和 DAG 节点失败处理"@,
            seq![
                ("step1"@, "正常步骤"@, "data"@),
                ("step2"@, "失败步骤"@, "transform"@),
                ("step3"@, "依赖步骤"@, "transform"@)
            ],
            seq![
                ("step1"@, "step2"@),
                ("step2"@, "step3"@)
            ],
            "flowchart TD\n    step1[正常步骤] --> step2[失败步骤]\n    step2 --> step3[依赖步骤]"@,
        )
    ]
}

fn node(id: &str, name: &str, node_type: &str) -> (n: NodeSpec)
    ensures
        node_view(n) == (id@, name@, node_type@),
{
    NodeSpec { id: id.to_owned(), name: name.to_owned(), node_type: node_type.to_owned() }
}

fn edge(from: &str, to: &str) -> (e: (String, String))
    ensures
        edge_view(e) == (from@, to@),
{
    (from.to_owned(), to.to_owned())
}

fn pipeline_basic() -> (p: PipelineSpec)
    ensures
        pipeline_view(p) == catalog()[0],
{
    let nodes = vec![
        node("fetch_data", "获取销售数据", "data"),
        node("clean_data", "清洗数据", "transform"),
        node("validate_data", "验证数据", "transform"),
        node("analyze_data", "分析数据", "transform"),
        node("generate_report", "报告生成", "transform"),
        node("export_visual", "可视化导出", "transform")
    ];
    let edges = vec![
        edge("fetch_data", "clean_data"),
        edge("fetch_data", "validate_data"),
        edge("clean_data", "analyze_data"),
        edge("validate_data", "analyze_data"),
        edge("analyze_data", "generate_report"),
        edge("analyze_data", "export_visual")
    ];
    let p = PipelineSpec {
        id: "basic".to_owned(),
        name: "基础 DAG 数据管道".to_owned(),
        description: "数据获取 → 数据清洗 → 数据验证 (并行) → 数据分析 → 报告生成 + 可视化导出 (并行)".to_owned(),
        nodes,
        edges,
        dag_mermaid: "flowchart TD\n    fetch_data[获取销售数据] --> clean_data[清洗数据]\n    fetch_data --> validate_data[验证数据]\n    clean_data --> analyze_data[分析数据]\n    validate_data --> analyze_data\n    analyze_data --> generate_report[报告生成]\n    analyze_data --> export_visual[可视化导出]".to_owned(),
    };
    proof {
        assert(p.nodes@.map_values(|n: NodeSpec| node_view(n)) =~= catalog()[0].3);
        assert(p.edges@.map_values(|e: (String, String)| edge_view(e)) =~= catalog()[0].4);
    }
    p
}

fn pipeline_llm() -> (p: PipelineSpec)
    ensures
        pipeline_view(p) == catalog()[1],
{
    let nodes = vec![
        node("fetch_data", "获取销售数据", "data"),
        node("clean_data", "清洗数据", "transform"),
        node("llm_analyze", "LLM 智能分析", "llm"),
        node("generate_report", "生成智能报告", "transform")
    ];
    let edges = vec![
        edge("fetch_data", "clean_data"),
        edge("clean_data", "llm_analyze"),
        edge("llm_analyze", "generate_report")
    ];
    let p = PipelineSpec {
        id: "llm".to_owned(),
        name: "LLM 智能分析管道".to_owned(),
        description: "数据获取 → 数据清洗 → LLM 智能分析 → 生成智能报告".to_owned(),
        nodes,
        edges,
        dag_mermaid: "flowchart TD\n    fetch_data[获取销售数据] --> clean_data[清洗数据]\n    clean_data --> llm_analyze[LLM 智能分析]\n    llm_analyze --> generate_report[生成智能报告]".to_owned(),
    };
    proof {
        assert(p.nodes@.map_values(|n: NodeSpec| node_view(n)) =~= catalog()[1].3);
        assert(p.edges@.map_values(|e: (String, String)| edge_view(e)) =~= catalog()[1].4);
    }
    p
}

fn pipeline_multi_model() -> (p: PipelineSpec)
    ensures
        pipeline_view(p) == catalog()[2],
{
    let nodes = vec![
        node("fetch_data", "获取销售数据", "data"),
        node("clean_data", "清洗数据", "transform"),
        node("gpt4_analysis", "GPT-4 深度分析", "llm"),
        node("llama3_validate", "Llama3 本地校验", "llm"),
        node("statistics", "统计计算", "transform"),
        node("doubao_report", "豆包报告润色", "llm"),
        node("token_summary", "Token 使用统计", "transform")
    ];
    let edges = vec![
        edge("fetch_data", "clean_data"),
        edge("clean_data", "gpt4_analysis"),
        edge("clean_data", "llama3_validate"),
        edge("clean_data", "statistics"),
        edge("gpt4_analysis", "doubao_report"),
        edge("llama3_validate", "doubao_report"),
        edge("statistics", "doubao_report"),
        edge("doubao_report", "token_summary")
    ];
    let p = PipelineSpec {
        id: "multi-model".to_owned(),
        name: "多模型协作管道".to_owned(),
        description: "数据获取 → 数据清洗 → GPT-4 分析 / Llama3 校验 / 统计计算 (并行) → 豆包报告润色 → Token 统计".to_owned(),
        nodes,
        edges,
        dag_mermaid: "flowchart TD\n    fetch_data[获取销售数据] --> clean_data[清洗数据]\n    clean_data --> gpt4_analysis[GPT-4 深度分析]\n    clean_data --> llama3_validate[Llama3 本地校验]\n    clean_data --> statistics[统计计算]\n    gpt4_analysis --> doubao_report[豆包报告润色]\n    llama3_validate --> doubao_report\n    statistics --> doubao_report\n    doubao_report --> token_summary[Token 使用统计]".to_owned(),
    };
    proof {
        assert(p.nodes@.map_values(|n: NodeSpec| node_view(n)) =~= catalog()[2].3);
        assert(p.edges@.map_values(|e: (String, String)| edge_view(e)) =~= catalog()[2].4);
    }
    p
}

fn pipeline_context() -> (p: PipelineSpec)
    ensures
        pipeline_view(p) == catalog()[3],
{
    let nodes = vec![
        node("producer", "数据生产者", "data"),
        node("consumer", "数据消费者", "transform")
    ];
    let edges = vec![
        edge("producer", "consumer")
    ];
    let p = PipelineSpec {
        id: "context".to_owned(),
        name: "执行上下文演示".to_owned(),
        description: "展示上下文读写、日志、快照恢复、DAG 数据传递".to_owned(),
        nodes,
        edges,
        dag_mermaid: "flowchart TD\n    producer[数据生产者] --> consumer[数据消费者]".to_owned(),
    };
    proof {
        assert(p.nodes@.map_values(|n: NodeSpec| node_view(n)) =~= catalog()[3].3);
        assert(p.edges@.map_values(|e: (String, String)| edge_view(e)) =~= catalog()[3].4);
    }
    p
}

fn pipeline_error_recovery() -> (p: PipelineSpec)
    ensures
        pipeline_view(p) == catalog()[4],
{
    let nodes = vec![
        node("step1", "正常步骤", "data"),
        node("step2", "失败步骤", "transform"),
        node("step3", "依赖步骤", "transform")
    ];
    let edges = vec![
        edge("step1", "step2"),
        edge("step2", "step3")
    ];
    let p = PipelineSpec {
        id: "error-recovery".to_owned(),
        name: "错误恢复演示".to_owned(),
        description: "模拟网络超时，演示指数退避重试和 DAG 节点失败处理".to_owned(),
        nodes,
        edges,
        dag_mermaid: "flowchart TD\n    step1[正常步骤] --> step2[失败步骤]\n    step2 --> step3[依赖步骤]".to_owned(),
    };
    proof {
        assert(p.nodes@.map_values(|n: NodeSpec| node_view(n)) =~= catalog()[4].3);
        assert(p.edges@.map_values(|e: (String, String)| edge_view(e)) =~= catalog()[4].4);
    }
    p
}

/// The pipelines the demo offers: a basic data pipeline, an LLM analysis, several models
/// working together, passing context between nodes, and recovering from errors.
pub fn get_pipelines() -> (v: Vec<PipelineSpec>)
    ensures
        v@.map_values(|p: PipelineSpec| pipeline_view(p)) == catalog(),
{
    let mut v: Vec<PipelineSpec> = Vec::new();
    v.push(pipeline_basic());
    v.push(pipeline_llm());
    v.push(pipeline_multi_model());
    v.push(pipeline_context());
    v.push(pipeline_error_recovery());
    proof {
        assert(v@.map_values(|p: PipelineSpec| pipeline_view(p)) =~= catalog());
    }
    v
}

/// Every pipeline the demo offers is a DAG: its node ids are distinct and its edges go
/// forward in its node list.
pub proof fn lemma_catalog_is_acyclic()
    ensures
        forall|i: int| 0 <= i < catalog().len() ==> edges_go_forward(#[trigger] catalog()[i]),
{
    assert forall|i: int| 0 <= i < catalog().len() implies edges_go_forward(#[trigger] catalog()[i]) by {
        let p = catalog()[i];
        distinct_ids(i);
        assert forall|k: int| 0 <= k < p.4.len() implies #[trigger] edge_forward(p, k) by {
            forward_witness(i, k);
        }
    }
}

proof fn distinct_ids(p: int)
    requires
        0 <= p < catalog().len(),
    ensures
        node_ids(catalog()[p]).no_duplicates(),
{
    reveal_strlit("analyze_data");
    reveal_strlit("clean_data");
    reveal_strlit("consumer");
    reveal_strlit("doubao_report");
    reveal_strlit("export_visual");
    reveal_strlit("fetch_data");
    reveal_strlit("generate_report");
    reveal_strlit("gpt4_analysis");
    reveal_strlit("llama3_validate");
    reveal_strlit("llm_analyze");
    reveal_strlit("producer");
    reveal_strlit("statistics");
    reveal_strlit("step1");
    reveal_strlit("step2");
    reveal_strlit("step3");
    reveal_strlit("token_summary");
    reveal_strlit("validate_data");
    if p == 0 {
        assert(node_ids(catalog()[0]) =~= seq!["fetch_data"@, "clean_data"@, "validate_data"@, "analyze_data"@, "generate_report"@, "export_visual"@]);
        {
            assert("fetch_data"@[0] != "clean_data"@[0]);
            assert("fetch_data"@.len() != "validate_data"@.len());
            assert("fetch_data"@.len() != "analyze_data"@.len());
            assert("fetch_data"@.len() != "generate_report"@.len());
            assert("fetch_data"@.len() != "export_visual"@.len());
            assert("clean_data"@.len() != "validate_data"@.len());
            assert("clean_data"@.len() != "analyze_data"@.len());
            assert("clean_data"@.len() != "generate_report"@.len());
            assert("clean_data"@.len() != "export_visual"@.len());
            assert("validate_data"@.len() != "analyze_data"@.len());
            assert("validate_data"@.len() != "generate_report"@.len());
            assert("validate_data"@[0] != "export_visual"@[0]);
            assert("analyze_data"@.len() != "generate_report"@.len());
            assert("analyze_data"@.len() != "export_visual"@.len());
            assert("generate_report"@.len() != "export_visual"@.len());
        }
    }
    if p == 1 {
        assert(node_ids(catalog()[1]) =~= seq!["fetch_data"@, "clean_data"@, "llm_analyze"@, "generate_report"@]);
        {
            assert("fetch_data"@[0] != "clean_data"@[0]);
            assert("fetch_data"@.len() != "llm_analyze"@.len());
            assert("fetch_data"@.len() != "generate_report"@.len());
            assert("clean_data"@.len() != "llm_analyze"@.len());
            assert("clean_data"@.len() != "generate_report"@.len());
            assert("llm_analyze"@.len() != "generate_report"@.len());
        }
    }
    if p == 2 {
        assert(node_ids(catalog()[2]) =~= seq!["fetch_data"@, "clean_data"@, "gpt4_analysis"@, "llama3_validate"@, "statistics"@, "doubao_report"@, "token_summary"@]);
        {
            assert("fetch_data"@[0] != "clean_data"@[0]);
            assert("fetch_data"@.len() != "gpt4_analysis"@.len());
            assert("fetch_data"@.len() != "llama3_validate"@.len());
            assert("fetch_data"@[0] != "statistics"@[0]);
            assert("fetch_data"@.len() != "doubao_report"@.len());
            assert("fetch_data"@.len() != "token_summary"@.len());
            assert("clean_data"@.len() != "gpt4_analysis"@.len());
            assert("clean_data"@.len() != "llama3_validate"@.len());
            assert("clean_data"@[0] != "statistics"@[0]);
            assert("clean_data"@.len() != "doubao_report"@.len());
            assert("clean_data"@.len() != "token_summary"@.len());
            assert("gpt4_analysis"@.len() != "llama3_validate"@.len());
            assert("gpt4_analysis"@.len() != "statistics"@.len());
            assert("gpt4_analysis"@[0] != "doubao_report"@[0]);
            assert("gpt4_analysis"@[0] != "token_summary"@[0]);
            assert("llama3_validate"@.len() != "statistics"@.len());
            assert("llama3_validate"@.len() != "doubao_report"@.len());
            assert("llama3_validate"@.len() != "token_summary"@.len());
            assert("statistics"@.len() != "doubao_report"@.len());
            assert("statistics"@.len() != "token_summary"@.len());
            assert("doubao_report"@[0] != "token_summary"@[0]);
        }
    }
    if p == 3 {
        assert(node_ids(catalog()[3]) =~= seq!["producer"@, "consumer"@]);
        {
            assert("producer"@[0] != "consumer"@[0]);
        }
    }
    if p == 4 {
        assert(node_ids(catalog()[4]) =~= seq!["step1"@, "step2"@, "step3"@]);
        {
            assert("step1"@[4] != "step2"@[4]);
            assert("step1"@[4] != "step3"@[4]);
            assert("step2"@[4] != "step3"@[4]);
        }
    }
}

proof fn forward_witness(p: int, k: int)
    requires
        0 <= p < catalog().len(),
        0 <= k < catalog()[p].4.len(),
    ensures
        edge_forward(catalog()[p], k),
{
    let ids = node_ids(catalog()[p]);
    if p == 0 && k == 0 {
        assert(ids[0] == catalog()[0].4[0].0 && ids[1] == catalog()[0].4[0].1);
    }
    if p == 0 && k == 1 {
        assert(ids[0] == catalog()[0].4[1].0 && ids[2] == catalog()[0].4[1].1);
    }
    if p == 0 && k == 2 {
        assert(ids[1] == catalog()[0].4[2].0 && ids[3] == catalog()[0].4[2].1);
    }
    if p == 0 && k == 3 {
        assert(ids[2] == catalog()[0].4[3].0 && ids[3] == catalog()[0].4[3].1);
    }
    if p == 0 && k == 4 {
        assert(ids[3] == catalog()[0].4[4].0 && ids[4] == catalog()[0].4[4].1);
    }
    if p == 0 && k == 5 {
        assert(ids[3] == catalog()[0].4[5].0 && ids[5] == catalog()[0].4[5].1);
    }
    if p == 1 && k == 0 {
        assert(ids[0] == catalog()[1].4[0].0 && ids[1] == catalog()[1].4[0].1);
    }
    if p == 1 && k == 1 {
        assert(ids[1] == catalog()[1].4[1].0 && ids[2] == catalog()[1].4[1].1);
    }
    if p == 1 && k == 2 {
        assert(ids[2] == catalog()[1].4[2].0 && ids[3] == catalog()[1].4[2].1);
    }
    if p == 2 && k == 0 {
        assert(ids[0] == catalog()[2].4[0].0 && ids[1] == catalog()[2].4[0].1);
    }
    if p == 2 && k == 1 {
        assert(ids[1] == catalog()[2].4[1].0 && ids[2] == catalog()[2].4[1].1);
    }
    if p == 2 && k == 2 {
        assert(ids[1] == catalog()[2].4[2].0 && ids[3] == catalog()[2].4[2].1);
    }
    if p == 2 && k == 3 {
        assert(ids[1] == catalog()[2].4[3].0 && ids[4] == catalog()[2].4[3].1);
    }
    if p == 2 && k == 4 {
        assert(ids[2] == catalog()[2].4[4].0 && ids[5] == catalog()[2].4[4].1);
    }
    if p == 2 && k == 5 {
        assert(ids[3] == catalog()[2].4[5].0 && ids[5] == catalog()[2].4[5].1);
    }
    if p == 2 && k == 6 {
        assert(ids[4] == catalog()[2].4[6].0 && ids[5] == catalog()[2].4[6].1);
    }
    if p == 2 && k == 7 {
        assert(ids[5] == catalog()[2].4[7].0 && ids[6] == catalog()[2].4[7].1);
    }
    if p == 3 && k == 0 {
        assert(ids[0] == catalog()[3].4[0].0 && ids[1] == catalog()[3].4[0].1);
    }
    if p == 4 && k == 0 {
        assert(ids[0] == catalog()[4].4[0].0 && ids[1] == catalog()[4].4[0].1);
    }
    if p == 4 && k == 1 {
        assert(ids[1] == catalog()[4].4[1].0 && ids[2] == catalog()[4].4[1].1);
    }
}

} // verus!
