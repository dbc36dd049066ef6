use vstd::prelude::*;
use crate::whitespace::push_char;

verus! {

/// Number of demonstration documents.
pub const DEMO_COUNT: usize = 30;

/// The texts of the demonstration documents.
pub const CONTENTS: [&'static str; 30] = [
    "The quick brown fox jumps over the lazy dog. This sample text demonstrates basic embedding visualization for document retrieval systems.",
    "Machine learning models process input data through multiple layers of transformation, each extracting increasingly abstract features.",
    "Vector embeddings capture semantic meaning in high-dimensional space, allowing similarity comparisons between documents.",
    "The architecture consists of an encoder-decoder structure with attention mechanisms that weigh the importance of different input tokens.",
    "Natural language processing has evolved from rule-based systems to neural approaches that learn representations from data.",
    "Dimensionality reduction techniques like t-SNE and UMAP help visualize high-dimensional embeddings in two or three dimensions.",
    "Transfer learning enables models pretrained on large corpora to be fine-tuned for domain-specific downstream tasks.",
    "The cosine similarity metric measures the angle between two vectors, providing a scale-invariant measure of semantic relatedness.",
    "Attention mechanisms allow models to focus on relevant parts of the input sequence when producing each element of the output.",
    "Tokenization splits text into subword units, balancing vocabulary size against the ability to represent any input string.",
    "Gradient descent optimization adjusts model parameters iteratively to minimize a loss function over the training data.",
    "Regularization techniques such as dropout and weight decay prevent neural networks from overfitting to the training set.",
    "Batch normalization stabilizes training by normalizing intermediate activations within each mini-batch of data.",
    "The transformer architecture replaced recurrent connections with self-attention, enabling parallel computation across sequence positions.",
    "Cross-attention allows a decoder to attend over encoder outputs, bridging the gap between source and target representations.",
    "Positional encodings inject sequence order information into transformer models that otherwise process tokens in parallel.",
    "Beam search decoding explores multiple candidate output sequences simultaneously, improving quality over greedy selection.",
    "Fine-tuning adapts a pretrained model to a specific task by continuing training on a smaller, task-specific dataset.",
    "The embedding space learned by language models exhibits linear relationships that enable analogy reasoning through vector arithmetic.",
    "Semantic search uses embedding similarity rather than keyword matching to retrieve documents relevant to a user query.",
    "Contrastive learning trains models to distinguish similar from dissimilar pairs, producing well-structured embedding spaces.",
    "Knowledge distillation transfers learned representations from a large teacher model to a smaller, more efficient student model.",
    "Multi-head attention computes several attention functions in parallel, allowing the model to attend to information from different subspaces.",
    "The softmax function converts raw logits into a probability distribution, commonly used as the final layer for classification tasks.",
    "Curriculum learning presents training examples in a structured order from easy to difficult, accelerating convergence.",
    "Data augmentation creates synthetic training examples through transformations, improving model robustness without collecting more data.",
    "The perplexity metric evaluates language model quality by measuring how well the model predicts held-out text.",
    "Reinforcement learning from human feedback aligns model outputs with human preferences by optimizing a learned reward model.",
    "Quantization reduces model precision from floating point to lower-bit representations, enabling faster inference with minimal quality loss.",
    "Retrieval-augmented generation combines a knowledge store with a language model, grounding outputs in retrieved evidence.",
];

/// The x coordinates of the demonstration documents, in tenths.
pub const X_TENTHS: [i32; 30] = [-32, 14, 28, -5, 41, -19, 36, 7, -23, 50, -45, 11, -8, 33, 20, -12, 47, -38, 3, -27, 18, -1, 39, -16, 25, -30, 9, 44, -21, 16];

/// The y coordinates of the demonstration documents, in tenths.
pub const Y_TENTHS: [i32; 30] = [21, -15, 37, 4, -28, 19, -6, 42, -31, 24, 8, -40, 32, -17, 13, 29, -3, -25, 46, -34, 1, 17, -43, 26, -9, 38, -11, 40, -20, 35];

/// A document placed on the map. Coordinates are fixed-point: tenths of a
/// unit.
pub struct Point {
    pub title: String,
    pub x_tenths: i32,
    pub y_tenths: i32,
    pub content: String,
}

/// The decimal digit `d` as a character.
pub open spec fn digit_char(d: int) -> char {
    (48 + d) as char
}

/// The decimal digits of `n`, most significant first.
pub open spec fn decimal(n: nat) -> Seq<char>
    decreases n,
{
    if n < 10 {
        seq![digit_char(n as int)]
    } else {
        decimal(n / 10).push(digit_char((n % 10) as int))
    }
}

/// `format!("{:03}", n)`: the decimal digits of `n`, with zeros in front up
/// to three digits.
pub open spec fn padded3(n: nat) -> Seq<char> {
    if n < 10 {
        seq!['0', '0'] + decimal(n)
    } else if n < 100 {
        seq!['0'] + decimal(n)
    } else {
        decimal(n)
    }
}

/// `format!("doc-{:03}", n)`.
pub open spec fn demo_title(n: int) -> Seq<char> {
    "doc-"@ + padded3(n as nat)
}

/// The character of a decimal digit.
fn digit(d: u32) -> (c: char)
    requires
        d < 10,
    ensures
        c == digit_char(d as int),
{
    match d {
        0 => '0',
        1 => '1',
        2 => '2',
        3 => '3',
        4 => '4',
        5 => '5',
        6 => '6',
        7 => '7',
        8 => '8',
        _ => '9',
    }
}

/// Appends the decimal digits of `n`.
fn push_decimal(s: &mut String, n: u32)
    ensures
        final(s)@ == old(s)@ + decimal(n as nat),
    decreases n,
{
    let ghost start = s@;
    if n >= 10 {
        push_decimal(s, n / 10);
    }
    push_char(s, digit(n % 10));
    if n >= 10 {
        assert(s@ =~= start + decimal(n as nat));
    } else {
        assert(s@ =~= start + decimal(n as nat));
    }
}

/// `format!("doc-{:03}", n)`.
pub fn title_for(n: u32) -> (r: String)
    ensures
        r@ == demo_title(n as int),
{
    let mut t = String::from_str("doc-");
    let ghost prefix = t@;
    if n < 10 {
        push_char(&mut t, '0');
        push_char(&mut t, '0');
    } else if n < 100 {
        push_char(&mut t, '0');
    }
    let ghost padded = t@;
    push_decimal(&mut t, n);
    if n < 10 {
        assert(padded =~= prefix + seq!['0', '0']);
    } else if n < 100 {
        assert(padded =~= prefix + seq!['0']);
    } else {
        assert(padded =~= prefix);
    }
    assert(t@ =~= prefix + padded3(n as nat));
    t
}

/// The demonstration documents: document `i` is titled `doc-00i` (counting
/// from 1), carries the `i`-th text and sits at the `i`-th coordinates.
pub fn generate_demo_data() -> (r: Vec<Point>)
    ensures
        r@.len() == DEMO_COUNT,
        forall|i: int| 0 <= i < DEMO_COUNT ==> {
            &&& (#[trigger] r@[i]).title@ == demo_title(i + 1)
            &&& r@[i].x_tenths == X_TENTHS[i]
            &&& r@[i].y_tenths == Y_TENTHS[i]
            &&& r@[i].content@ == CONTENTS[i]@
        },
{
    let mut out: Vec<Point> = Vec::new();
    let mut i: usize = 0;
    while i < DEMO_COUNT
        invariant
            i <= DEMO_COUNT,
            out@.len() == i,
            forall|j: int| 0 <= j < i ==> {
                &&& (#[trigger] out@[j]).title@ == demo_title(j + 1)
                &&& out@[j].x_tenths == X_TENTHS[j]
                &&& out@[j].y_tenths == Y_TENTHS[j]
                &&& out@[j].content@ == CONTENTS[j]@
            },
        decreases DEMO_COUNT - i,
    {
        let p = Point {
            title: title_for((i + 1) as u32),
            x_tenths: X_TENTHS[i],
            y_tenths: Y_TENTHS[i],
            content: CONTENTS[i].to_owned(),
        };
        out.push(p);
        i = i + 1;
    }
    out
}

} // verus!
