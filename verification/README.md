# tynx

The verified core of the Tynx training toolkit, written in Verus.

`src/` holds the logic, each public function with a contract that Verus proves:

- `graph`, `backward_support`, `trainability`: the plain model of a processed ONNX
  graph, the backward capability of each operator input, and the trainability
  analysis (initializer roles, influencing parameters, backward-path issues).
- `imported`: parameter slots and inputs of an imported model.
- `parameter`, `store`, `optimizer`, `collect`: versioned parameter slots, the
  named store, optimizer state checks and the normalisation of parameter lists.
- `capture`, `tape`: captured graphs and their replay guards, and the eager
  autodiff bookkeeping checked before a backward pass.
- `shape`, `combine`, `data`, `sampling`, `binding`, `autograd`, `browser`: argument
  normalisation of tensor operations, tensor data read from nested sequences, and
  model calls.
- `protocol`: the benchmark protocol's policies and checks.
- `text`, `error`: rendering of messages and the error type.

`tests/` exercises the library; `app/` converts `onnx-ir` graphs into the library's
model, reads the benchmark case files and holds what needs floating point.
